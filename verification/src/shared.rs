//! What this crate takes from `std` and `countme` on trust.

use std::hash::{Hash, Hasher};
use std::sync::Arc;
use vstd::prelude::*;
use crate::node::GreenNode;

verus! {

/// `countme::Count` for nodes: a value that counts as one live [`GreenNode`] for
/// as long as it exists. It carries nothing else, and its hash hands nothing over.
///
/// The count is inside each node that it counts. Verus takes no such type unless
/// the inner one is hidden from it.
#[verifier::external_body]
#[derive(Hash)]
pub struct NodeCount {
    count: countme::Count<GreenNode>,
}

impl NodeCount {
    /// `countme::Count::new` makes a new count, after adding one to the nodes that
    /// are counted. Nothing is claimed of the value: there is nothing in it to
    /// speak of.
    #[verifier::external_body]
    pub(crate) fn new() -> NodeCount {
        NodeCount { count: countme::Count::new() }
    }

    /// `Count::clone` makes a new count as well, and adds one to the nodes that are
    /// counted. Again nothing is claimed of the value.
    #[verifier::external_body]
    pub(crate) fn again(&self) -> NodeCount {
        NodeCount { count: self.count.clone() }
    }
}

/// `Arc::clone`: another pointer to the same allocation, and so to the same
/// value.
#[verifier::external_body]
pub(crate) fn share<T>(pointer: &Arc<T>) -> (other: Arc<T>)
    ensures
        other == *pointer,
{
    Arc::clone(pointer)
}

/// `Hash::hash`: hands a value to a hasher. What becomes of the hasher is not
/// stated: that is up to the hasher. The contracts of the `hash` methods speak of
/// calls of this function, so it is `pub`; its module is not.
#[verifier::external_body]
pub fn feed<T: Hash + ?Sized, H: Hasher>(value: &T, state: &mut H) {
    value.hash(state)
}

} // verus!
