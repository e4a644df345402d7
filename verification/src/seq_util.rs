//! Small sequence facts shared by the loop proofs of this crate.
//!
//! The executable stages all walk their input left to right while the
//! matching specification functions recurse on `drop_last`; this lemma links
//! one loop step to one recursion step.

use vstd::prelude::*;

verus! {

/// One more element taken from the front splits off as the last element.
pub proof fn lemma_take_step<A>(s: Seq<A>, i: int)
    requires
        0 <= i < s.len(),
    ensures
        s.take(i + 1).drop_last() == s.take(i),
        s.take(i + 1).last() == s[i],
        s.take(i + 1).len() == i + 1,
{
    Seq::lemma_take_succ_push(s, i);
    assert(s.take(i + 1).drop_last() =~= s.take(i));
}

/// Taking the whole length gives the sequence back.
pub proof fn lemma_take_all<A>(s: Seq<A>)
    ensures
        s.take(s.len() as int) == s,
{
    assert(s.take(s.len() as int) =~= s);
}

} // verus!
