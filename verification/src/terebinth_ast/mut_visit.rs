//! Rewriting syntax-tree nodes in place.

use vstd::prelude::*;

verus! {

/// A node that has a placeholder value, to stand in while the node is rewritten.
pub trait DummyAstNode: Sized {
    fn dummy() -> Self;
}

impl<T> DummyAstNode for Option<T> {
    /// The placeholder of an optional node is no node.
    fn dummy() -> (r: Self)
        ensures
            r is None,
    {
        None
    }
}

/// Replaces `*t` by what `f` makes of it, leaving a placeholder in `t` while `f` runs.
pub fn visit_clobber<T: DummyAstNode>(t: &mut T, f: impl FnOnce(T) -> T)
    requires
        f.requires((*old(t),)),
    ensures
        f.ensures((*old(t),), *final(t)),
{
    let mut old_t = T::dummy();
    std::mem::swap(t, &mut old_t);
    *t = f(old_t);
}

} // verus!
