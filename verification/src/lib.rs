pub mod comparator;
pub mod laws;
pub mod linked_list;
pub mod linked_list_node;
pub mod predicate;
pub mod text;

pub use crate::comparator::CompareFunction;
pub use crate::comparator::Comparator;
pub use crate::linked_list::LinkedList;
pub use crate::linked_list_node::Link;
pub use crate::linked_list_node::LinkedListNode;
pub use crate::predicate::Predicate;
