use vstd::prelude::*;

verus! {

/// The way from a node to its successor: the successor's slot in the list
/// that holds both, or `None` where the node is the last one.
pub type Link = Option<usize>;

/// One element of a list together with the link to the element after it.
#[derive(Debug)]
pub struct LinkedListNode<T> {
    /// The element.
    pub value: T,
    /// The link to the node after this one.
    pub next: Link,
}

impl<T> LinkedListNode<T> {
    /// A node that holds `value` and links to `next`.
    pub fn new(value: T, next: Link) -> (node: Self)
        ensures
            node.value == value,
            node.next == next,
    {
        LinkedListNode { value, next }
    }
}

impl<T: Clone> Clone for LinkedListNode<T> {
    /// A node with a clone of the value and with the same link.
    fn clone(&self) -> (node: Self)
        ensures
            cloned(self.value, node.value),
            node.next == self.next,
    {
        LinkedListNode { value: self.value.clone(), next: self.next }
    }
}

/// The node that holds `value` after it has been taken out of its list:
/// it has no link. Without a value there is no node.
pub open spec fn detached<T>(value: Option<T>) -> Option<LinkedListNode<T>> {
    match value {
        Some(value) => Some(LinkedListNode { value, next: None }),
        None => None,
    }
}

/// `copy` is what cloning the value of `node` gives, with the link of `node`.
pub open spec fn is_copy_of<T: Clone>(copy: LinkedListNode<T>, node: LinkedListNode<T>) -> bool {
    cloned(node.value, copy.value) && copy.next == node.next
}

} // verus!
