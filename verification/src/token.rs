//! Token trees: the units that declarations and invocations are written in.
//!
//! A token tree is either a single token or a bracketed group of token trees.
//! Nesting is structural: a comma inside a group is part of that group and is
//! never seen by a scan of the sequence that contains the group.

use vstd::prelude::*;

verus! {

/// A range of source text, as two offsets.
#[derive(Clone, Copy, Debug, PartialEq, Eq, Structural)]
pub struct Span {
    pub lo: usize,
    pub hi: usize,
}

/// The three kinds of bracket that can enclose a group.
#[derive(Clone, Copy, Debug, PartialEq, Eq, Structural)]
pub enum DelimToken {
    Paren,
    Bracket,
    Brace,
}

/// A single token that is not a group.
#[derive(Debug, PartialEq, Eq)]
pub enum Token {
    /// An identifier, with its text. That the text has the shape of an
    /// identifier is the word of whoever made the token.
    Ident(String),
    /// The sign `=`.
    Eq,
    /// The sign `,`.
    Comma,
    /// Any other token (a literal, an operator), with its text.
    Other(String),
}

/// A token with its span, or a bracketed group of token trees.
#[derive(Debug, PartialEq, Eq)]
pub enum TokenTree {
    Token(Span, Token),
    Delimited(Span, DelimToken, Vec<TokenTree>),
}

/// The mathematical value of a [`Token`].
pub enum TokenView {
    Ident(Seq<char>),
    Eq,
    Comma,
    Other(Seq<char>),
}

/// The mathematical value of a [`TokenTree`].
pub enum TreeView {
    Token(Span, TokenView),
    Delimited(Span, DelimToken, Seq<TreeView>),
}

impl View for Token {
    type V = TokenView;

    open spec fn view(&self) -> TokenView {
        match self {
            Token::Ident(s) => TokenView::Ident(s@),
            Token::Eq => TokenView::Eq,
            Token::Comma => TokenView::Comma,
            Token::Other(s) => TokenView::Other(s@),
        }
    }
}

impl DeepView for Token {
    type V = TokenView;

    open spec fn deep_view(&self) -> TokenView {
        self@
    }
}

/// The value of a token tree: spans, kinds and texts, with groups as sequences.
///
/// The test on the index serves the proof that the definition is well
/// founded; every child of a group is within it.
pub open spec fn spec_tree_view(tt: TokenTree) -> TreeView
    decreases tt,
{
    match tt {
        TokenTree::Token(sp, t) => TreeView::Token(sp, t@),
        TokenTree::Delimited(sp, d, tts) => TreeView::Delimited(
            sp,
            d,
            Seq::new(
                tts@.len(),
                |i: int|
                    if 0 <= i < tts@.len() {
                        spec_tree_view(tts@[i])
                    } else {
                        arbitrary()
                    },
            ),
        ),
    }
}

impl View for TokenTree {
    type V = TreeView;

    open spec fn view(&self) -> TreeView {
        spec_tree_view(*self)
    }
}

impl DeepView for TokenTree {
    type V = TreeView;

    open spec fn deep_view(&self) -> TreeView {
        self@
    }
}

impl TreeView {
    /// The span that the tree carries.
    pub open spec fn span(self) -> Span {
        match self {
            TreeView::Token(sp, _) => sp,
            TreeView::Delimited(sp, _, _) => sp,
        }
    }

    /// Whether the tree is a single `,`.
    pub open spec fn is_comma(self) -> bool {
        self matches TreeView::Token(_, TokenView::Comma)
    }

    /// Whether the tree is a single `=`.
    pub open spec fn is_eq(self) -> bool {
        self matches TreeView::Token(_, TokenView::Eq)
    }

    /// Whether the tree is a single identifier.
    pub open spec fn is_ident(self) -> bool {
        self matches TreeView::Token(_, TokenView::Ident(_))
    }

    /// The text of an identifier; meaningful only where `is_ident` holds.
    pub open spec fn ident(self) -> Seq<char> {
        match self {
            TreeView::Token(_, TokenView::Ident(s)) => s,
            _ => Seq::empty(),
        }
    }
}

/// The children of a group, seen as values: what `deep_view` gives for the
/// vector that holds them.
pub proof fn lemma_delimited_view(tt: TokenTree)
    requires
        tt is Delimited,
    ensures
        tt@ == TreeView::Delimited(tt->Delimited_0, tt->Delimited_1, tt->Delimited_2.deep_view()),
{
    assert(tt@->Delimited_2 =~= tt->Delimited_2.deep_view());
}

impl Clone for Token {
    fn clone(&self) -> (r: Self)
        ensures
            r@ == self@,
    {
        match self {
            Token::Ident(s) => Token::Ident(s.clone()),
            Token::Eq => Token::Eq,
            Token::Comma => Token::Comma,
            Token::Other(s) => Token::Other(s.clone()),
        }
    }
}

impl Clone for TokenTree {
    fn clone(&self) -> (r: Self)
        ensures
            r@ == self@,
        decreases *self,
    {
        match self {
            TokenTree::Token(sp, t) => TokenTree::Token(*sp, t.clone()),
            TokenTree::Delimited(sp, d, tts) => {
                let inner = clone_tts(tts.as_slice());
                let r = TokenTree::Delimited(*sp, *d, inner);
                proof {
                    lemma_delimited_view(r);
                    lemma_delimited_view(*self);
                }
                r
            },
        }
    }
}

/// A copy of a sequence of token trees, tree by tree.
pub fn clone_tts(tts: &[TokenTree]) -> (r: Vec<TokenTree>)
    ensures
        r.deep_view() == tts.deep_view(),
    decreases tts@,
{
    let mut out: Vec<TokenTree> = Vec::new();
    let mut i: usize = 0;
    while i < tts.len()
        invariant
            i <= tts@.len(),
            out@.len() == i,
            forall|j: int| 0 <= j < i ==> out@[j]@ == tts@[j]@,
        decreases tts@.len() - i,
    {
        out.push(tts[i].clone());
        i += 1;
    }
    assert(out.deep_view() =~= tts.deep_view());
    out
}

impl TokenTree {
    /// Whether the tree is a single `,`.
    pub fn is_comma(&self) -> (b: bool)
        ensures
            b == self@.is_comma(),
    {
        match self {
            TokenTree::Token(_, Token::Comma) => true,
            _ => false,
        }
    }

    /// Whether the tree is a single `=`.
    pub fn is_eq(&self) -> (b: bool)
        ensures
            b == self@.is_eq(),
    {
        match self {
            TokenTree::Token(_, Token::Eq) => true,
            _ => false,
        }
    }

    /// The text of the tree if it is a single identifier.
    pub fn ident(&self) -> (r: Option<&String>)
        ensures
            r.is_some() == self@.is_ident(),
            r matches Some(s) ==> s@ == self@.ident(),
    {
        match self {
            TokenTree::Token(_, Token::Ident(s)) => Some(s),
            _ => None,
        }
    }
}

/// How many tokens the argument that begins at `from` has: the tokens of
/// `tts` from `from` up to the next comma or the end. Commas inside groups
/// are not in `tts` and so are never counted.
pub open spec fn spec_arg_len(tts: Seq<TreeView>, from: int) -> nat
    decreases tts.len() - from,
{
    if from < 0 || from >= tts.len() || tts[from].is_comma() {
        0
    } else {
        1 + spec_arg_len(tts, from + 1)
    }
}

/// Where the argument that begins at `from` ends: the index of the first
/// comma of `tts` at or after `from`, or the length of `tts` if there is none.
pub open spec fn spec_arg_end(tts: Seq<TreeView>, from: int) -> int {
    from + spec_arg_len(tts, from)
}

/// Where the argument after the one that begins at `from` begins: past the
/// comma that ends it, or at the end of `tts` if no comma does.
pub open spec fn spec_arg_next(tts: Seq<TreeView>, from: int) -> int {
    if spec_arg_end(tts, from) < tts.len() {
        spec_arg_end(tts, from) + 1
    } else {
        spec_arg_end(tts, from)
    }
}

/// `spec_arg_end` is the one index at or after `from` that is a comma or the
/// end and has no comma between `from` and itself.
pub proof fn lemma_arg_end(tts: Seq<TreeView>, from: int, end: int)
    requires
        0 <= from <= end <= tts.len(),
        forall|k: int| from <= k < end ==> !(#[trigger] tts[k]).is_comma(),
        end < tts.len() ==> tts[end].is_comma(),
    ensures
        spec_arg_end(tts, from) == end,
    decreases end - from,
{
    if from < end {
        lemma_arg_end(tts, from + 1, end);
    }
}

/// What `spec_arg_end` returns lies between `from` and the end, is a comma if
/// it is not the end, and no token before it is one.
pub proof fn lemma_arg_end_is_first_comma(tts: Seq<TreeView>, from: int)
    requires
        0 <= from <= tts.len(),
    ensures
        from <= spec_arg_end(tts, from) <= tts.len(),
        spec_arg_end(tts, from) < tts.len() ==> tts[spec_arg_end(tts, from)].is_comma(),
        forall|k: int| from <= k < spec_arg_end(tts, from) ==> !(#[trigger] tts[k]).is_comma(),
    decreases tts.len() - from,
{
    if from < tts.len() && !tts[from].is_comma() {
        lemma_arg_end_is_first_comma(tts, from + 1);
    }
}

/// The span of a token tree.
pub fn get_span_from_tt(tt: &TokenTree) -> (sp: Span)
    ensures
        sp == tt@.span(),
{
    match tt {
        TokenTree::Token(sp, _) => *sp,
        TokenTree::Delimited(sp, _, _) => *sp,
    }
}

} // verus!
