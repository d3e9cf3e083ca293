//! A cursor over a token sequence that shows the current token and the one
//! after it.

use vstd::prelude::*;
use crate::token::{lemma_arg_end, spec_arg_end, TokenTree, TreeView};

verus! {

/// A window of two tokens over a sequence: the current one and the next.
///
/// Looking one token past the current one is what tells the head of a keyword
/// argument, `name =`, from an expression that merely begins with a name,
/// without ever stepping back.
pub struct TTLookAhead<'l> {
    tts: &'l [TokenTree],
    pos: usize,
}

impl<'l> TTLookAhead<'l> {
    #[verifier::type_invariant]
    spec fn in_bounds(&self) -> bool {
        self.pos <= self.tts@.len()
    }

    /// The sequence that the cursor walks, as values.
    pub closed spec fn trees(&self) -> Seq<TreeView> {
        self.tts.deep_view()
    }

    /// How many tokens lie before the current one.
    pub closed spec fn position(&self) -> int {
        self.pos as int
    }

    /// The current token, if the cursor has not passed the end.
    pub open spec fn spec_cur(&self) -> Option<TreeView> {
        if 0 <= self.position() < self.trees().len() {
            Some(self.trees()[self.position()])
        } else {
            None
        }
    }

    /// The token after the current one, if there is one.
    pub open spec fn spec_next(&self) -> Option<TreeView> {
        if 0 <= self.position() + 1 < self.trees().len() {
            Some(self.trees()[self.position() + 1])
        } else {
            None
        }
    }

    /// A cursor whose current token is the first of `tts`.
    pub fn new(tts: &'l [TokenTree]) -> (r: TTLookAhead<'l>)
        ensures
            r.trees() == tts.deep_view(),
            r.position() == 0,
    {
        TTLookAhead { tts, pos: 0 }
    }

    /// The position, which never passes the end of the sequence.
    pub fn pos(&self) -> (p: usize)
        ensures
            p == self.position(),
            0 <= self.position() <= self.trees().len(),
    {
        proof {
            use_type_invariant(self);
        }
        self.pos
    }

    /// The current token, or `None` at the end of the sequence.
    pub fn cur_tt(&self) -> (r: Option<&'l TokenTree>)
        ensures
            0 <= self.position() <= self.trees().len(),
            r.deep_view() == self.spec_cur(),
    {
        proof {
            use_type_invariant(self);
        }
        if self.pos < self.tts.len() {
            Some(&self.tts[self.pos])
        } else {
            None
        }
    }

    /// The token after the current one, or `None` if there is none.
    pub fn next_tt(&self) -> (r: Option<&'l TokenTree>)
        ensures
            0 <= self.position() <= self.trees().len(),
            r.deep_view() == self.spec_next(),
    {
        proof {
            use_type_invariant(self);
        }
        if self.pos < self.tts.len() && self.pos + 1 < self.tts.len() {
            Some(&self.tts[self.pos + 1])
        } else {
            None
        }
    }

    /// Moves the window on by one token and returns the new current token.
    /// At the end of the sequence the cursor stays where it is.
    pub fn bump(&mut self) -> (r: Option<&'l TokenTree>)
        ensures
            final(self).trees() == old(self).trees(),
            final(self).position() == if old(self).position() < old(self).trees().len() {
                old(self).position() + 1
            } else {
                old(self).position()
            },
            0 <= final(self).position() <= final(self).trees().len(),
            r.deep_view() == final(self).spec_cur(),
    {
        proof {
            use_type_invariant(&*self);
        }
        if self.pos < self.tts.len() {
            self.pos = self.pos + 1;
        }
        self.cur_tt()
    }

    /// Copies the tokens from the current one up to the next comma or the end
    /// of the sequence, and leaves the cursor on that comma or at the end.
    pub fn collect_until_comma(&mut self) -> (r: Vec<TokenTree>)
        ensures
            final(self).trees() == old(self).trees(),
            0 <= old(self).position() <= final(self).position() <= final(self).trees().len(),
            final(self).position() == spec_arg_end(old(self).trees(), old(self).position()),
            r.deep_view() == old(self).trees().subrange(
                old(self).position(),
                final(self).position(),
            ),
    {
        proof {
            use_type_invariant(&*self);
        }
        let ghost start = self.pos as int;
        let ghost trees = self.trees();
        let mut out: Vec<TokenTree> = Vec::new();
        while self.pos < self.tts.len() && !self.tts[self.pos].is_comma()
            invariant
                self.trees() == trees,
                self.tts.deep_view() == trees,
                start <= self.pos <= self.tts@.len(),
                out@.len() == self.pos - start,
                forall|k: int| start <= k < self.pos ==> !(#[trigger] trees[k]).is_comma(),
                forall|k: int| 0 <= k < out@.len() ==> out@[k]@ == trees[start + k],
            decreases self.tts@.len() - self.pos,
        {
            out.push(self.tts[self.pos].clone());
            self.pos = self.pos + 1;
        }
        proof {
            lemma_arg_end(trees, start, self.pos as int);
            assert(out.deep_view() =~= trees.subrange(start, self.pos as int));
        }
        out
    }
}

} // verus!
