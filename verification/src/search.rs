//! The first element of a sequence that has a property.

use vstd::prelude::*;

verus! {

/// The index of the first element of `s` of which `pred` holds, if there is
/// one.
pub open spec fn spec_first<T>(s: Seq<T>, pred: spec_fn(T) -> bool) -> Option<int>
    decreases s.len(),
{
    if s.len() == 0 {
        None
    } else {
        match spec_first(s.drop_last(), pred) {
            Some(i) => Some(i),
            None => if pred(s.last()) {
                Some(s.len() - 1)
            } else {
                None
            },
        }
    }
}

/// `spec_first` finds an element exactly where `pred` holds of one, and then
/// the first such.
pub proof fn lemma_first<T>(s: Seq<T>, pred: spec_fn(T) -> bool)
    ensures
        match spec_first(s, pred) {
            Some(i) => {
                &&& 0 <= i < s.len()
                &&& pred(s[i])
                &&& forall|j: int| 0 <= j < i ==> !pred(#[trigger] s[j])
            },
            None => forall|j: int| 0 <= j < s.len() ==> !pred(#[trigger] s[j]),
        },
    decreases s.len(),
{
    if s.len() > 0 {
        let init = s.drop_last();
        lemma_first(init, pred);
        assert forall|j: int| 0 <= j < init.len() implies init[j] == s[j] by {}
    }
}

} // verus!
