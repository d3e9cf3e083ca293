//! What holds of every declaration and every invocation.
//!
//! The laws are stated over the same functions as the contracts of
//! [`KWargDecl::resolve`](crate::decl::KWargDecl) and of
//! [`KWargDecl::expand`](crate::decl::KWargDecl), so each of them holds of
//! what those two return.

use vstd::prelude::*;
use crate::decl::{
    lemma_params_distinct, lemma_position, spec_declaration, spec_distinct_names, spec_params,
    spec_position, DeclView, ParameterView,
};
use crate::diagnostic::DiagnosticView;
use crate::expand::{
    lemma_first_unbound, spec_arguments, spec_bind, spec_bind_all, spec_call, spec_comma,
    spec_expand, spec_first_unbound, spec_initial, spec_join, spec_keyword_head, spec_resolve,
    ArgumentView, ScanState,
};
use crate::token::{
    lemma_arg_end, lemma_arg_end_is_first_comma, spec_arg_end, spec_arg_len, spec_arg_next,
    DelimToken, Span, TokenView, TreeView,
};

verus! {

/// No declaration that is read from tokens has two parameters of one name.
pub proof fn law_declared_names_distinct(sp: Span, tts: Seq<TreeView>)
    ensures
        spec_declaration(sp, tts) matches Ok(decl) ==> spec_distinct_names(decl.params),
{
    if tts.len() >= 2 {
        match tts[1] {
            TreeView::Delimited(_, DelimToken::Paren, group) => {
                lemma_params_distinct(group, 0, Seq::empty());
            },
            _ => {},
        }
    }
}

/// Binding a list of arguments is binding its first part and then, from the
/// state that this leads to, the rest.
pub proof fn lemma_bind_all_concat(
    decl: DeclView,
    sp: Span,
    st: ScanState,
    a: Seq<ArgumentView>,
    b: Seq<ArgumentView>,
)
    ensures
        spec_bind_all(decl, sp, st, a + b) == match spec_bind_all(decl, sp, st, a) {
            Err(e) => Err(e),
            Ok(mid) => spec_bind_all(decl, sp, mid, b),
        },
    decreases a.len(),
{
    if a.len() == 0 {
        assert(a + b =~= b);
    } else {
        assert((a + b)[0] == a[0]);
        assert((a + b).skip(1) =~= a.skip(1) + b);
        match spec_bind(decl, sp, st, a[0]) {
            Ok(next) => {
                lemma_bind_all_concat(decl, sp, next, a.skip(1), b);
            },
            Err(_) => {},
        }
    }
}

/// The arguments up to the `j`th decide the outcome if one of them is
/// refused; if none is, the `j`th is bound in the state that they lead to.
pub proof fn lemma_bind_all_at(
    decl: DeclView,
    sp: Span,
    st: ScanState,
    args: Seq<ArgumentView>,
    j: int,
)
    requires
        0 <= j < args.len(),
    ensures
        spec_bind_all(decl, sp, st, args) == match spec_bind_all(decl, sp, st, args.take(j)) {
            Err(e) => Err(e),
            Ok(mid) => match spec_bind(decl, sp, mid, args[j]) {
                Err(e) => Err(e),
                Ok(next) => spec_bind_all(decl, sp, next, args.skip(j + 1)),
            },
        },
{
    assert(args =~= args.take(j) + args.skip(j));
    lemma_bind_all_concat(decl, sp, st, args.take(j), args.skip(j));
    assert(args.skip(j)[0] == args[j]);
    assert(args.skip(j).skip(1) =~= args.skip(j + 1));
}

/// Once a keyword argument has been accepted, every state after it says so.
pub proof fn lemma_found_keyword(
    decl: DeclView,
    sp: Span,
    st: ScanState,
    args: Seq<ArgumentView>,
    k: int,
)
    requires
        st.found_keyword || (0 <= k < args.len() && args[k].is_keyword()),
        spec_bind_all(decl, sp, st, args) is Ok,
    ensures
        spec_bind_all(decl, sp, st, args)->Ok_0.found_keyword,
    decreases args.len(),
{
    if args.len() > 0 {
        let next = spec_bind(decl, sp, st, args[0])->Ok_0;
        if st.found_keyword || k == 0 {
            assert(next.found_keyword);
            lemma_found_keyword(decl, sp, next, args.skip(1), 0);
        } else {
            assert(args.skip(1)[k - 1] == args[k]);
            lemma_found_keyword(decl, sp, next, args.skip(1), k - 1);
        }
    }
}

/// A positional argument after a keyword argument is refused: an invocation
/// that has one is never accepted, and unless an argument before it is
/// refused for another reason, the error is an `OrderingViolation` at the
/// first token of that positional argument.
pub proof fn law_positional_after_keyword(
    decl: DeclView,
    sp: Span,
    tts: Seq<TreeView>,
    k: int,
    j: int,
)
    requires
        0 <= k < j < spec_arguments(tts, 0).len(),
        spec_arguments(tts, 0)[k].is_keyword(),
        !spec_arguments(tts, 0)[j].is_keyword(),
    ensures
        spec_resolve(decl, sp, tts) is Err,
        spec_expand(decl, sp, tts) is Err,
        spec_bind_all(decl, sp, spec_initial(decl), spec_arguments(tts, 0).take(j)) is Ok
            ==> spec_resolve(decl, sp, tts) == Err::<Seq<Seq<TreeView>>, DiagnosticView>(
            DiagnosticView::OrderingViolation { span: spec_arguments(tts, 0)[j].first().span() },
        ),
{
    let args = spec_arguments(tts, 0);
    let st = spec_initial(decl);
    lemma_bind_all_at(decl, sp, st, args, j);
    if spec_bind_all(decl, sp, st, args.take(j)) is Ok {
        assert(args.take(j)[k] == args[k]);
        lemma_found_keyword(decl, sp, st, args.take(j), k);
    }
}

/// A keyword argument whose name is not that of a parameter is refused: an
/// invocation that has one is never accepted, and unless an argument before
/// it is refused, the error is an `UnknownArgumentName` at that name.
pub proof fn law_unknown_argument_name(decl: DeclView, sp: Span, tts: Seq<TreeView>, j: int)
    requires
        0 <= j < spec_arguments(tts, 0).len(),
        spec_arguments(tts, 0)[j].is_keyword(),
        forall|i: int|
            0 <= i < decl.params.len() ==> (#[trigger] decl.params[i]).name != spec_arguments(
                tts,
                0,
            )[j].tokens[0].ident(),
    ensures
        spec_resolve(decl, sp, tts) is Err,
        spec_expand(decl, sp, tts) is Err,
        spec_bind_all(decl, sp, spec_initial(decl), spec_arguments(tts, 0).take(j)) is Ok
            ==> spec_resolve(decl, sp, tts) == Err::<Seq<Seq<TreeView>>, DiagnosticView>(
            DiagnosticView::UnknownArgumentName {
                span: spec_arguments(tts, 0)[j].tokens[0].span(),
            },
        ),
{
    let args = spec_arguments(tts, 0);
    lemma_bind_all_at(decl, sp, spec_initial(decl), args, j);
    lemma_position(decl.params, args[j].tokens[0].ident());
}

/// An invocation without tokens is accepted exactly if every parameter has a
/// default, and then resolves to the defaults in the order of the
/// declaration. Otherwise the first parameter without a default is reported
/// as missing.
pub proof fn law_empty_call(decl: DeclView, sp: Span)
    ensures
        spec_resolve(decl, sp, Seq::empty()) is Ok <==> forall|i: int|
            0 <= i < decl.params.len() ==> (#[trigger] decl.params[i]).default is Some,
        spec_resolve(decl, sp, Seq::empty()) is Ok ==> spec_resolve(decl, sp, Seq::empty())
            == Ok::<Seq<Seq<TreeView>>, DiagnosticView>(
            Seq::new(decl.params.len(), |i: int| decl.params[i].default.unwrap()),
        ),
        forall|i: int|
            0 <= i < decl.params.len() && (#[trigger] decl.params[i]).default is None && (forall|
                j: int,
            |
                0 <= j < i ==> (#[trigger] decl.params[j]).default is Some) ==> spec_resolve(
                decl,
                sp,
                Seq::empty(),
            ) == Err::<Seq<Seq<TreeView>>, DiagnosticView>(
                DiagnosticView::MissingRequiredArgument { span: sp, name: decl.params[i].name },
            ),
{
    let st = spec_initial(decl);
    assert(spec_arguments(Seq::<TreeView>::empty(), 0) =~= Seq::empty());
    assert(spec_bind_all(decl, sp, st, Seq::empty()) == Ok::<ScanState, DiagnosticView>(st));
    lemma_first_unbound(st.slots);
    match spec_first_unbound(st.slots) {
        Some(u) => {
            assert(decl.params[u].default is None);
            assert forall|i: int|
                0 <= i < decl.params.len() && (#[trigger] decl.params[i]).default is None && (
                forall|j: int| 0 <= j < i ==> (#[trigger] decl.params[j]).default is Some) implies i
                == u by {
                if i < u {
                    assert(st.slots[i].is_some());
                } else if u < i {
                    assert(decl.params[u].default is Some);
                }
            }
        },
        None => {
            assert forall|i: int| 0 <= i < decl.params.len() implies (
            #[trigger] decl.params[i]).default is Some by {
                assert(st.slots[i].is_some());
            }
            assert(Seq::new(st.slots.len(), |i: int| st.slots[i].unwrap()) =~= Seq::new(
                decl.params.len(),
                |i: int| decl.params[i].default.unwrap(),
            ));
        },
    }
}

/// A declaration without parameters accepts the invocation without tokens
/// and no other: one that begins with a name and `=` names a parameter that
/// is not there, and any other passes an argument too many.
pub proof fn law_no_parameters(decl: DeclView, sp: Span, tts: Seq<TreeView>)
    requires
        decl.params.len() == 0,
    ensures
        spec_resolve(decl, sp, tts) == if tts.len() == 0 {
            Ok::<Seq<Seq<TreeView>>, DiagnosticView>(Seq::empty())
        } else if spec_keyword_head(tts) {
            Err(DiagnosticView::UnknownArgumentName { span: tts[0].span() })
        } else {
            Err(DiagnosticView::ArityExceeded { span: sp, target: decl.name, expected: 0 })
        },
{
    let st = spec_initial(decl);
    if tts.len() == 0 {
        assert(spec_arguments(tts, 0) =~= Seq::empty());
        assert(st.slots =~= Seq::empty());
        assert(Seq::new(st.slots.len(), |i: int| st.slots[i].unwrap()) =~= Seq::<
            Seq<TreeView>,
        >::empty());
    } else {
        lemma_arg_end_is_first_comma(tts, 0);
        let args = spec_arguments(tts, 0);
        let end = spec_arg_end(tts, 0);
        assert(args[0].tokens == tts.subrange(0, end));
        if spec_keyword_head(tts) {
            assert(!tts[0].is_comma() && !tts[1].is_comma());
            assert(end >= 2);
            lemma_position(decl.params, tts[0].ident());
        } else {
            if args[0].is_keyword() {
                assert(args[0].tokens[1] == tts[1]);
            }
        }
    }
}

/// The arguments `args` written out with the commas `commas` between them.
pub open spec fn spec_interleave(args: Seq<Seq<TreeView>>, commas: Seq<TreeView>) -> Seq<TreeView>
    decreases args.len(),
{
    if args.len() == 0 {
        Seq::empty()
    } else if args.len() == 1 {
        args[0]
    } else {
        args[0] + seq![commas[0]] + spec_interleave(args.skip(1), commas.skip(1))
    }
}

/// Whether `args` and `commas` can be written out and read back: there is a
/// comma for each gap between two arguments, no argument holds a comma of its
/// own, and the last argument is not empty.
pub open spec fn spec_separable(args: Seq<Seq<TreeView>>, commas: Seq<TreeView>) -> bool {
    &&& args.len() == 0 ==> commas.len() == 0
    &&& args.len() > 0 ==> commas.len() == args.len() - 1
    &&& forall|i: int| 0 <= i < commas.len() ==> (#[trigger] commas[i]).is_comma()
    &&& forall|i: int, k: int|
        0 <= i < args.len() && 0 <= k < args[i].len() ==> !(#[trigger] args[i][k]).is_comma()
    &&& args.len() > 0 ==> args.last().len() > 0
}

/// The arguments `args` as they stand in an invocation, each with the comma
/// that ends it.
pub open spec fn spec_written(args: Seq<Seq<TreeView>>, commas: Seq<TreeView>) -> Seq<
    ArgumentView,
> {
    Seq::new(
        args.len(),
        |i: int|
            ArgumentView {
                tokens: args[i],
                comma: if i < commas.len() {
                    Some(commas[i])
                } else {
                    None
                },
            },
    )
}

/// Tokens before an invocation do not change where its arguments end.
proof fn lemma_arg_len_shift(prefix: Seq<TreeView>, tts: Seq<TreeView>, from: int)
    requires
        0 <= from <= tts.len(),
    ensures
        spec_arg_len(prefix + tts, prefix.len() + from) == spec_arg_len(tts, from),
    decreases tts.len() - from,
{
    if from < tts.len() {
        assert((prefix + tts)[prefix.len() + from] == tts[from]);
        if !tts[from].is_comma() {
            lemma_arg_len_shift(prefix, tts, from + 1);
        }
    }
}

/// Tokens before an invocation do not change its arguments.
proof fn lemma_arguments_shift(prefix: Seq<TreeView>, tts: Seq<TreeView>, from: int)
    requires
        0 <= from <= tts.len(),
    ensures
        spec_arguments(prefix + tts, prefix.len() + from) == spec_arguments(tts, from),
    decreases tts.len() - from,
{
    let all = prefix + tts;
    if from < tts.len() {
        lemma_arg_len_shift(prefix, tts, from);
        lemma_arg_end_is_first_comma(tts, from);
        let end = spec_arg_end(tts, from);
        assert(spec_arg_end(all, prefix.len() + from) == prefix.len() + end);
        assert(all.subrange(prefix.len() + from, prefix.len() + end) =~= tts.subrange(from, end));
        if end < tts.len() {
            assert(all[prefix.len() + end] == tts[end]);
        }
        assert(spec_arg_next(all, prefix.len() + from) == prefix.len() + spec_arg_next(tts, from));
        lemma_arguments_shift(prefix, tts, spec_arg_next(tts, from));
    }
}

/// Reading is the inverse of writing: the arguments of what `args` and
/// `commas` write out are `args`, each ended by its comma.
pub proof fn law_arguments_of_interleave(args: Seq<Seq<TreeView>>, commas: Seq<TreeView>)
    requires
        spec_separable(args, commas),
    ensures
        spec_arguments(spec_interleave(args, commas), 0) == spec_written(args, commas),
    decreases args.len(),
{
    let tts = spec_interleave(args, commas);
    if args.len() == 0 {
        assert(spec_arguments(tts, 0) =~= spec_written(args, commas));
    } else if args.len() == 1 {
        assert forall|k: int| 0 <= k < tts.len() implies !(#[trigger] tts[k]).is_comma() by {
            assert(!args[0][k].is_comma());
        }
        lemma_arg_end(tts, 0, tts.len() as int);
        assert(tts.subrange(0, tts.len() as int) =~= tts);
        assert(spec_arguments(tts, tts.len() as int) =~= Seq::empty());
        assert(spec_arguments(tts, 0) =~= spec_written(args, commas));
    } else {
        let first = args[0];
        let prefix = first + seq![commas[0]];
        let rest_args = args.skip(1);
        let rest_commas = commas.skip(1);
        let rest = spec_interleave(rest_args, rest_commas);
        assert(tts == prefix + rest);
        assert forall|i: int, k: int|
            0 <= i < rest_args.len() && 0 <= k < rest_args[i].len() implies !(
            #[trigger] rest_args[i][k]).is_comma() by {
            assert(!args[i + 1][k].is_comma());
        }
        assert forall|i: int| 0 <= i < rest_commas.len() implies (
        #[trigger] rest_commas[i]).is_comma() by {
            assert(commas[i + 1].is_comma());
        }
        assert(rest_args.last() == args.last());
        law_arguments_of_interleave(rest_args, rest_commas);
        assert forall|k: int| 0 <= k < first.len() implies !(#[trigger] tts[k]).is_comma() by {
            assert(!args[0][k].is_comma());
        }
        assert(tts[first.len() as int] == commas[0]);
        lemma_arg_end(tts, 0, first.len() as int);
        assert(tts.subrange(0, first.len() as int) =~= first);
        assert(spec_arg_next(tts, 0) == prefix.len());
        lemma_arguments_shift(prefix, rest, 0);
        assert(spec_arguments(tts, 0) =~= spec_written(args, commas));
    }
}

/// Tokens before a group do not change the parameters that it declares.
proof fn lemma_params_shift(
    prefix: Seq<TreeView>,
    group: Seq<TreeView>,
    pos: int,
    acc: Seq<ParameterView>,
)
    requires
        0 <= pos <= group.len(),
    ensures
        spec_params(prefix + group, prefix.len() + pos, acc) == spec_params(group, pos, acc),
    decreases group.len() - pos,
{
    let all = prefix + group;
    let at = prefix.len() + pos;
    if pos < group.len() {
        assert(all[at] == group[pos]);
        if group[pos].is_ident() && spec_position(acc, group[pos].ident()).is_none() {
            let name = group[pos].ident();
            if pos + 1 < group.len() {
                assert(all[at + 1] == group[pos + 1]);
            }
            if pos + 1 < group.len() && group[pos + 1].is_eq() {
                let end = spec_arg_end(group, pos + 2);
                lemma_arg_len_shift(prefix, group, pos + 2);
                lemma_arg_end_is_first_comma(group, pos + 2);
                assert(spec_arg_end(all, at + 2) == prefix.len() + end);
                assert(all.subrange(at + 2, prefix.len() + end) =~= group.subrange(pos + 2, end));
                assert(spec_arg_next(all, at + 2) == prefix.len() + spec_arg_next(group, pos + 2));
                lemma_params_shift(
                    prefix,
                    group,
                    spec_arg_next(group, pos + 2),
                    acc.push(ParameterView { name, default: Some(group.subrange(pos + 2, end)) }),
                );
            } else if pos + 1 < group.len() && group[pos + 1].is_comma() {
                lemma_params_shift(
                    prefix,
                    group,
                    pos + 2,
                    acc.push(ParameterView { name, default: None }),
                );
            } else {
                lemma_params_shift(
                    prefix,
                    group,
                    pos + 1,
                    acc.push(ParameterView { name, default: None }),
                );
            }
        }
    }
}

/// Whether `entry` is how a declaration writes the parameter `p`: its name,
/// and after it `=` and its default where it has one.
pub open spec fn spec_declares(entry: Seq<TreeView>, p: ParameterView) -> bool {
    &&& entry.len() >= 1
    &&& entry[0].is_ident()
    &&& entry[0].ident() == p.name
    &&& match p.default {
        None => entry.len() == 1,
        Some(default) => entry.len() >= 2 && entry[1].is_eq() && entry.skip(2) == default,
    }
}

/// The entries of `params` written out after the parameters `acc` are read
/// as `params` after `acc`.
proof fn lemma_params_of_interleave(
    acc: Seq<ParameterView>,
    params: Seq<ParameterView>,
    entries: Seq<Seq<TreeView>>,
    commas: Seq<TreeView>,
)
    requires
        spec_distinct_names(acc + params),
        entries.len() == params.len(),
        forall|i: int| 0 <= i < params.len() ==> spec_declares(#[trigger] entries[i], params[i]),
        spec_separable(entries, commas),
    ensures
        spec_params(spec_interleave(entries, commas), 0, acc) == Ok::<
            Seq<ParameterView>,
            DiagnosticView,
        >(acc + params),
    decreases params.len(),
{
    let group = spec_interleave(entries, commas);
    if params.len() == 0 {
        assert(acc + params =~= acc);
    } else {
        let entry = entries[0];
        let p = params[0];
        let next = acc.push(p);
        let length = entry.len() as int;
        assert(spec_declares(entry, p));
        assert forall|k: int| 0 <= k < length implies group[k] == entry[k] && !(
        #[trigger] group[k]).is_comma() by {
            assert(!entries[0][k].is_comma());
        }
        assert(spec_position(acc, p.name).is_none()) by {
            lemma_position(acc, p.name);
            let all = acc + params;
            assert(all[acc.len() as int] == p);
            if spec_position(acc, p.name) is Some {
                let i = spec_position(acc, p.name)->Some_0;
                assert(all[i] == acc[i]);
            }
        }
        if p.default is Some {
            assert(entry.subrange(2, length) =~= entry.skip(2));
        }
        if params.len() == 1 {
            assert(group == entry);
            if p.default is Some {
                lemma_arg_end(group, 2, length);
            }
            assert(spec_params(group, length, next) == Ok::<Seq<ParameterView>, DiagnosticView>(next));
            assert(acc + params =~= next);
        } else {
            let prefix = entry + seq![commas[0]];
            let rest_entries = entries.skip(1);
            let rest_commas = commas.skip(1);
            let rest_params = params.skip(1);
            let rest = spec_interleave(rest_entries, rest_commas);
            assert(group == prefix + rest);
            assert(group[length] == commas[0]);
            if p.default is Some {
                lemma_arg_end(group, 2, length);
                assert(group.subrange(2, length) =~= entry.subrange(2, length));
            }
            assert(spec_params(group, 0, acc) == spec_params(group, length + 1, next));
            lemma_params_shift(prefix, rest, 0, next);
            assert(next + rest_params =~= acc + params);
            assert forall|i: int| 0 <= i < rest_params.len() implies spec_declares(
                #[trigger] rest_entries[i],
                rest_params[i],
            ) by {
                assert(spec_declares(entries[i + 1], params[i + 1]));
            }
            assert forall|i: int, k: int|
                0 <= i < rest_entries.len() && 0 <= k < rest_entries[i].len() implies !(
            #[trigger] rest_entries[i][k]).is_comma() by {
                assert(!entries[i + 1][k].is_comma());
            }
            assert forall|i: int| 0 <= i < rest_commas.len() implies (
            #[trigger] rest_commas[i]).is_comma() by {
                assert(commas[i + 1].is_comma());
            }
            assert(rest_entries.last() == entries.last());
            lemma_params_of_interleave(next, rest_params, rest_entries, rest_commas);
        }
    }
}

/// Reading a declaration is the inverse of writing it.
///
/// Let `params` have no two parameters of one name, let no default hold a
/// comma of its own, and let `entries` be the parameters as a declaration
/// writes them, with the commas `commas` between them. Then the statement of
/// a name and these entries in parentheses declares `params` under that name.
pub proof fn law_canonical_declaration(
    sp: Span,
    name: TreeView,
    at: Span,
    params: Seq<ParameterView>,
    entries: Seq<Seq<TreeView>>,
    commas: Seq<TreeView>,
)
    requires
        name.is_ident(),
        spec_distinct_names(params),
        entries.len() == params.len(),
        forall|i: int| 0 <= i < params.len() ==> spec_declares(#[trigger] entries[i], params[i]),
        spec_separable(entries, commas),
    ensures
        spec_declaration(
            sp,
            seq![
                name,
                TreeView::Delimited(at, DelimToken::Paren, spec_interleave(entries, commas)),
            ],
        ) == Ok::<DeclView, DiagnosticView>(DeclView { name: name.ident(), params }),
{
    assert(Seq::<ParameterView>::empty() + params =~= params);
    lemma_params_of_interleave(Seq::empty(), params, entries, commas);
}

/// With every comma at `sp`, writing out is joining at `sp`.
pub proof fn lemma_interleave_is_join(sp: Span, args: Seq<Seq<TreeView>>, commas: Seq<TreeView>)
    requires
        args.len() > 0 ==> commas.len() == args.len() - 1,
        forall|i: int| 0 <= i < commas.len() ==> #[trigger] commas[i] == spec_comma(sp),
    ensures
        spec_interleave(args, commas) == spec_join(sp, args),
    decreases args.len(),
{
    if args.len() >= 2 {
        let rest_commas = commas.skip(1);
        assert forall|i: int| 0 <= i < rest_commas.len() implies #[trigger] rest_commas[i]
            == spec_comma(sp) by {
            assert(commas[i + 1] == spec_comma(sp));
        }
        lemma_interleave_is_join(sp, args.skip(1), rest_commas);
        assert(commas[0] == spec_comma(sp));
    }
}

/// Positional arguments that are not too many fill the parameters after
/// those that are taken, in their order, and change no other.
proof fn lemma_bind_positional(decl: DeclView, sp: Span, st: ScanState, args: Seq<ArgumentView>)
    requires
        !st.found_keyword,
        0 <= st.positional,
        st.positional + args.len() <= decl.params.len(),
        st.slots.len() == decl.params.len(),
        forall|i: int|
            0 <= i < args.len() ==> !(#[trigger] args[i]).is_keyword() && args[i].tokens.len() > 0,
    ensures
        spec_bind_all(decl, sp, st, args) == Ok::<ScanState, DiagnosticView>(
            ScanState {
                slots: Seq::new(
                    st.slots.len(),
                    |i: int|
                        if st.positional <= i < st.positional + args.len() {
                            Some(args[i - st.positional].tokens)
                        } else {
                            st.slots[i]
                        },
                ),
                found_keyword: false,
                positional: st.positional + args.len(),
            },
        ),
    decreases args.len(),
{
    let want = Seq::new(
        st.slots.len(),
        |i: int|
            if st.positional <= i < st.positional + args.len() {
                Some(args[i - st.positional].tokens)
            } else {
                st.slots[i]
            },
    );
    if args.len() == 0 {
        assert(want =~= st.slots);
    } else {
        assert(!args[0].is_keyword() && args[0].tokens.len() > 0);
        let next = spec_bind(decl, sp, st, args[0])->Ok_0;
        let rest = args.skip(1);
        assert forall|i: int| 0 <= i < rest.len() implies !(#[trigger] rest[i]).is_keyword()
            && rest[i].tokens.len() > 0 by {
            assert(rest[i] == args[i + 1]);
        }
        lemma_bind_positional(decl, sp, next, rest);
        let got = spec_bind_all(decl, sp, next, rest)->Ok_0;
        assert(got.slots =~= want);
    }
}

/// Expansion leaves a call alone that is in its final form already.
///
/// Let an invocation pass one argument for each parameter, by position: each
/// of `args` has a token, holds no comma of its own and does not begin with a
/// name and `=`. Then it resolves to these arguments as they are, and it is
/// rewritten to the call of them. Where the commas of the invocation carry the
/// span `sp` of the invocation, as those of a rewritten call do, the
/// parentheses of the rewritten call hold the very tokens of the invocation.
pub proof fn law_canonical_call(
    decl: DeclView,
    sp: Span,
    args: Seq<Seq<TreeView>>,
    commas: Seq<TreeView>,
)
    requires
        spec_separable(args, commas),
        args.len() == decl.params.len(),
        forall|i: int|
            0 <= i < args.len() ==> (#[trigger] args[i]).len() > 0 && !spec_keyword_head(args[i]),
    ensures
        spec_resolve(decl, sp, spec_interleave(args, commas)) == Ok::<
            Seq<Seq<TreeView>>,
            DiagnosticView,
        >(args),
        spec_expand(decl, sp, spec_interleave(args, commas)) == Ok::<Seq<TreeView>, DiagnosticView>(
            spec_call(decl.name, sp, args),
        ),
        (forall|i: int| 0 <= i < commas.len() ==> #[trigger] commas[i] == spec_comma(sp))
            ==> spec_expand(decl, sp, spec_interleave(args, commas)) == Ok::<
            Seq<TreeView>,
            DiagnosticView,
        >(
            seq![
                TreeView::Token(sp, TokenView::Ident(decl.name)),
                TreeView::Delimited(sp, DelimToken::Paren, spec_interleave(args, commas)),
            ],
        ),
{
    let tts = spec_interleave(args, commas);
    let written = spec_written(args, commas);
    let st = spec_initial(decl);
    law_arguments_of_interleave(args, commas);
    assert forall|i: int| 0 <= i < written.len() implies !(#[trigger] written[i]).is_keyword()
        && written[i].tokens.len() > 0 by {
        assert(args[i].len() > 0 && !spec_keyword_head(args[i]));
    }
    lemma_bind_positional(decl, sp, st, written);
    let end = spec_bind_all(decl, sp, st, written)->Ok_0;
    assert(end.slots =~= Seq::new(args.len(), |i: int| Some(args[i])));
    lemma_first_unbound(end.slots);
    assert(Seq::new(end.slots.len(), |i: int| end.slots[i].unwrap()) =~= args);
    if forall|i: int| 0 <= i < commas.len() ==> #[trigger] commas[i] == spec_comma(sp) {
        lemma_interleave_is_join(sp, args, commas);
    }
}

/// Whether the `j`th of `args` binds the `i`th parameter: by its name if it
/// is a keyword argument, by its place if it is not.
pub open spec fn spec_binds(decl: DeclView, args: Seq<ArgumentView>, j: int, i: int) -> bool {
    &&& 0 <= j < args.len()
    &&& if args[j].is_keyword() {
        spec_position(decl.params, args[j].tokens[0].ident()) == Some(i)
    } else {
        j == i
    }
}

/// In a declaration without two parameters of one name, a keyword argument
/// binds the parameter whose name it gives, and no other.
pub proof fn law_keyword_binds_its_name(decl: DeclView, args: Seq<ArgumentView>, j: int, i: int)
    requires
        spec_distinct_names(decl.params),
        0 <= j < args.len(),
        args[j].is_keyword(),
        0 <= i < decl.params.len(),
    ensures
        spec_binds(decl, args, j, i) <==> decl.params[i].name == args[j].tokens[0].ident(),
{
    lemma_position(decl.params, args[j].tokens[0].ident());
}

/// Whether no argument after the `j`th binds the `i`th parameter.
pub open spec fn spec_binds_last(decl: DeclView, args: Seq<ArgumentView>, j: int, i: int) -> bool {
    forall|later: int| j < later < args.len() ==> !spec_binds(decl, args, later, i)
}

/// Whether no argument binds the `i`th parameter.
pub open spec fn spec_unbound(decl: DeclView, args: Seq<ArgumentView>, i: int) -> bool {
    forall|j: int| 0 <= j < args.len() ==> !spec_binds(decl, args, j, i)
}

/// What holds of the state after accepted arguments: the positional ones
/// come first and are counted, and each slot holds what the last argument
/// that binds it passes, or what it held at first.
spec fn spec_bound(decl: DeclView, args: Seq<ArgumentView>, st: ScanState) -> bool {
    &&& st.slots.len() == decl.params.len()
    &&& 0 <= st.positional <= args.len()
    &&& st.found_keyword == (st.positional < args.len())
    &&& forall|j: int|
        0 <= j < args.len() ==> (#[trigger] args[j]).is_keyword() == (j >= st.positional)
    &&& forall|i: int, j: int|
        0 <= i < decl.params.len() && #[trigger] spec_binds(decl, args, j, i) && spec_binds_last(
            decl,
            args,
            j,
            i,
        ) ==> st.slots[i] == Some(args[j].value())
    &&& forall|i: int|
        0 <= i < decl.params.len() && #[trigger] spec_unbound(decl, args, i) ==> st.slots[i]
            == decl.params[i].default
}

/// `spec_bound` holds of the state that accepted arguments lead to from the
/// first state.
proof fn lemma_bound(decl: DeclView, sp: Span, args: Seq<ArgumentView>)
    requires
        spec_bind_all(decl, sp, spec_initial(decl), args) is Ok,
    ensures
        spec_bound(decl, args, spec_bind_all(decl, sp, spec_initial(decl), args)->Ok_0),
    decreases args.len(),
{
    let first = spec_initial(decl);
    let st = spec_bind_all(decl, sp, first, args)->Ok_0;
    let n = decl.params.len() as int;
    if args.len() == 0 {
    } else {
        let init = args.drop_last();
        let x = args.last();
        let last = args.len() - 1;
        assert(args =~= init + seq![x]);
        lemma_bind_all_concat(decl, sp, first, init, seq![x]);
        let mid = spec_bind_all(decl, sp, first, init)->Ok_0;
        assert(spec_bind_all(decl, sp, mid, seq![x]) == spec_bind(decl, sp, mid, x)) by {
            reveal_with_fuel(spec_bind_all, 2);
            assert(seq![x][0] == x);
            assert(seq![x].skip(1).len() == 0);
        }
        assert(spec_bind(decl, sp, mid, x) == Ok::<ScanState, DiagnosticView>(st));
        lemma_bound(decl, sp, init);
        assert forall|j: int, i: int| 0 <= j < init.len() implies spec_binds(decl, init, j, i)
            == spec_binds(decl, args, j, i) by {
            assert(init[j] == args[j]);
        }
        let target = if x.is_keyword() {
            spec_position(decl.params, x.tokens[0].ident())->Some_0
        } else {
            mid.positional
        };
        lemma_position(decl.params, x.tokens[0].ident());
        assert(0 <= target < n);
        assert(st.slots == mid.slots.update(target, Some(x.value())));
        assert forall|i: int| spec_binds(decl, args, last, i) == (i == target) by {}
        assert forall|j: int| 0 <= j < args.len() implies (#[trigger] args[j]).is_keyword() == (j
            >= st.positional) by {
            if j < last {
                assert(init[j] == args[j]);
            }
        }
        assert forall|i: int, j: int|
            0 <= i < n && #[trigger] spec_binds(decl, args, j, i) && spec_binds_last(
                decl,
                args,
                j,
                i,
            ) implies st.slots[i] == Some(args[j].value()) by {
            if j < last {
                assert(!spec_binds(decl, args, last, i));
                assert(spec_binds(decl, init, j, i));
                assert forall|later: int| j < later < init.len() implies !spec_binds(
                    decl,
                    init,
                    later,
                    i,
                ) by {
                    assert(!spec_binds(decl, args, later, i));
                }
                assert(spec_binds_last(decl, init, j, i));
                assert(init[j] == args[j]);
            }
        }
        assert forall|i: int| 0 <= i < n && #[trigger] spec_unbound(decl, args, i) implies st.slots[i]
            == decl.params[i].default by {
            assert(!spec_binds(decl, args, last, i));
            assert forall|j: int| 0 <= j < init.len() implies !spec_binds(decl, init, j, i) by {
                assert(!spec_binds(decl, args, j, i));
            }
            assert(spec_unbound(decl, init, i));
        }
    }
}

/// Arguments come out in the order of the declaration, whatever the order in
/// which the invocation passes them.
///
/// Where an invocation is accepted, it resolves to one argument for each
/// parameter. That of a parameter is what the last argument that binds it
/// passes, and the parameter's default where no argument binds it. In an
/// accepted invocation the positional arguments come before the keyword
/// arguments.
pub proof fn law_declared_order(decl: DeclView, sp: Span, tts: Seq<TreeView>)
    requires
        spec_resolve(decl, sp, tts) is Ok,
    ensures
        spec_resolve(decl, sp, tts)->Ok_0.len() == decl.params.len(),
        forall|i: int, j: int|
            0 <= i < decl.params.len() && #[trigger] spec_binds(
                decl,
                spec_arguments(tts, 0),
                j,
                i,
            ) && spec_binds_last(decl, spec_arguments(tts, 0), j, i) ==> spec_resolve(
                decl,
                sp,
                tts,
            )->Ok_0[i] == spec_arguments(tts, 0)[j].value(),
        forall|i: int|
            0 <= i < decl.params.len() && #[trigger] spec_unbound(decl, spec_arguments(tts, 0), i)
                ==> decl.params[i].default == Some(spec_resolve(decl, sp, tts)->Ok_0[i]),
        forall|j: int, k: int|
            0 <= j < k < spec_arguments(tts, 0).len() && (#[trigger] spec_arguments(
                tts,
                0,
            )[j]).is_keyword() ==> (#[trigger] spec_arguments(tts, 0)[k]).is_keyword(),
{
    let args = spec_arguments(tts, 0);
    lemma_bound(decl, sp, args);
    let st = spec_bind_all(decl, sp, spec_initial(decl), args)->Ok_0;
    lemma_first_unbound(st.slots);
    let got = spec_resolve(decl, sp, tts)->Ok_0;
    assert forall|i: int| 0 <= i < decl.params.len() implies st.slots[i] == Some(
        #[trigger] got[i],
    ) by {
        assert(st.slots[i].is_some());
    }
}

} // verus!
