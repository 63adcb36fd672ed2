//! The ordered, append-only list of a node's children.
use vstd::prelude::*;
use orx_concurrent_vec::ConcurrentVec;

verus! {

/// The indices of a node's children, in order, held in a concurrent vector
/// that only ever grows.
#[verifier::external_body]
pub struct ChildList {
    items: ConcurrentVec<usize>,
}

/// The indices that a child list holds, in order.
pub uninterp spec fn child_list_items(c: ChildList) -> Seq<usize>;

impl View for ChildList {
    type V = Seq<usize>;

    open spec fn view(&self) -> Seq<usize> {
        child_list_items(*self)
    }
}

impl ChildList {
    /// Relies on `ConcurrentVec::new`: a vector with no elements.
    #[verifier::external_body]
    pub fn new() -> (r: ChildList)
        ensures
            child_list_items(r) == Seq::<usize>::empty(),
    {
        ChildList { items: ConcurrentVec::new() }
    }

    /// Relies on `ConcurrentVec::push`: with no other writer, the value lands
    /// after the elements already there.
    #[verifier::external_body]
    pub fn push(&mut self, child: usize)
        ensures
            child_list_items(*final(self)) == child_list_items(*old(self)).push(child),
    {
        self.items.push(child);
    }

    /// Relies on `ConcurrentVec::clone_to_vec`: the elements, in order, copied
    /// out into a `Vec`.
    #[verifier::external_body]
    pub fn to_vec(&self) -> (r: Vec<usize>)
        ensures
            r@ == child_list_items(*self),
    {
        self.items.clone_to_vec()
    }
}

} // verus!
