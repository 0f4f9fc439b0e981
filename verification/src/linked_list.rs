use crate::comparator::has_natural_order;
use crate::comparator::natural_order;
use crate::comparator::Comparator;
use crate::comparator::CompareFunction;
use crate::laws::after_appends;
use crate::laws::law_appends_keep_order;
use crate::linked_list_node::detached;
use crate::linked_list_node::is_copy_of;
use crate::linked_list_node::Link;
use crate::linked_list_node::LinkedListNode;
use crate::predicate::Predicate;
use crate::text::comma_joined;
use crate::text::debug_string;
use crate::text::is_debug_text;
use crate::text::texts;
use crate::text::join_with_commas;
use vstd::prelude::*;

verus! {

/// The link to position `i` of a chain of slots: the slot at that position,
/// or no link where the chain has no such position.
pub open spec fn link_at(slots: Seq<usize>, i: int) -> Link {
    if 0 <= i < slots.len() {
        Some(slots[i])
    } else {
        None
    }
}

/// The slot at position `i` of `chain` holds a node, and that node's link
/// leads to position `i + 1`.
spec fn node_links<T>(nodes: Seq<Option<LinkedListNode<T>>>, chain: Seq<usize>, i: int) -> bool {
    &&& chain[i] < nodes.len()
    &&& nodes[chain[i] as int] matches Some(n) && n.next == link_at(chain, i + 1)
}

/// Following the links from the first slot of `chain` visits the slots of
/// `chain` in order and then ends.
spec fn linked<T>(nodes: Seq<Option<LinkedListNode<T>>>, chain: Seq<usize>) -> bool {
    forall|i: int| 0 <= i < chain.len() ==> #[trigger] node_links(nodes, chain, i)
}

/// No slot is used twice, every occupied slot is on `chain`, and every vacant
/// slot is in `free`.
spec fn accounted<T>(
    nodes: Seq<Option<LinkedListNode<T>>>,
    chain: Seq<usize>,
    free: Seq<usize>,
) -> bool {
    &&& chain.no_duplicates()
    &&& free.no_duplicates()
    &&& forall|j: int|
        0 <= j < free.len() ==> (#[trigger] free[j]) < nodes.len() && nodes[free[j] as int] is None
    &&& forall|s: usize|
        s < nodes.len() ==> match #[trigger] nodes[s as int] {
            Some(_) => chain.contains(s),
            None => free.contains(s),
        }
}

/// The values of the nodes in the slots of `chain`, in the order of `chain`.
spec fn values<T>(nodes: Seq<Option<LinkedListNode<T>>>, chain: Seq<usize>) -> Seq<T> {
    Seq::new(chain.len(), |i: int| nodes[chain[i] as int].unwrap().value)
}

/// The slot at position `i` of `chain` holds the value that it held in
/// `initial`. Its link leads to position `i - 1` where `i` is below `k`, and
/// to position `i + 1` as in `initial` where it is not.
spec fn turned_at<T>(
    nodes: Seq<Option<LinkedListNode<T>>>,
    initial: Seq<Option<LinkedListNode<T>>>,
    chain: Seq<usize>,
    k: int,
    i: int,
) -> bool {
    &&& chain[i] < nodes.len()
    &&& nodes[chain[i] as int] matches Some(n) && initial[chain[i] as int] matches Some(m)
        && n.value == m.value && n.next == if i < k {
        link_at(chain, i - 1)
    } else {
        link_at(chain, i + 1)
    }
}

/// The first `k` links of `chain` have been turned round, and nothing else
/// has changed since `initial`.
spec fn turned<T>(
    nodes: Seq<Option<LinkedListNode<T>>>,
    initial: Seq<Option<LinkedListNode<T>>>,
    chain: Seq<usize>,
    k: int,
) -> bool {
    &&& nodes.len() == initial.len()
    &&& forall|i: int| 0 <= i < chain.len() ==> #[trigger] turned_at(nodes, initial, chain, k, i)
    &&& forall|s: usize|
        s < nodes.len() ==> ((#[trigger] nodes[s as int]) is Some <==> initial[s as int] is Some)
}

/// A singly linked list with a pluggable comparison of its elements.
///
/// The nodes live in the slots of an arena. Each node owns its value and
/// links to the slot of its successor; the list knows the slots of its first
/// and of its last node.
#[verifier::reject_recursive_types(T)]
pub struct LinkedList<T> {
    /// The arena: each slot holds a node of the list or is vacant.
    nodes: Vec<Option<LinkedListNode<T>>>,
    /// The vacant slots, which are filled before the arena grows.
    free: Vec<usize>,
    /// The slot of the first node.
    head: Link,
    /// The slot of the last node, so that appending need not walk the list.
    tail: Link,
    /// Decides which elements are equal.
    compare: Comparator<T>,
    /// The slots of the nodes in the order of the links, head first.
    chain: Ghost<Seq<usize>>,
}

impl<T: PartialEq + PartialOrd + 'static> View for LinkedList<T> {
    type V = Seq<T>;

    /// The elements, head first.
    closed spec fn view(&self) -> Seq<T> {
        values(self.nodes@, self.chain@)
    }
}

impl<T: PartialEq + PartialOrd + 'static> LinkedList<T> {
    /// The slots of the nodes, head first.
    pub closed spec fn slots(&self) -> Seq<usize> {
        self.chain@
    }

    /// The comparator that decides which elements are equal.
    pub closed spec fn comparator(&self) -> Comparator<T> {
        self.compare
    }

    /// The node that the list has recorded as its first.
    pub closed spec fn head_node(&self) -> Option<LinkedListNode<T>> {
        match self.head {
            Some(slot) if slot < self.nodes.len() => self.nodes@[slot as int],
            _ => None,
        }
    }

    /// The node that the list has recorded as its last.
    pub closed spec fn tail_node(&self) -> Option<LinkedListNode<T>> {
        match self.tail {
            Some(slot) if slot < self.nodes.len() => self.nodes@[slot as int],
            _ => None,
        }
    }

    /// The node at position `i`: the element at that position and the link to
    /// the node after it.
    pub open spec fn node_at(&self, i: int) -> LinkedListNode<T> {
        LinkedListNode {
            value: self@[i],
            next: if i + 1 < self@.len() {
                Some(self.slots()[i + 1])
            } else {
                None
            },
        }
    }

    /// All of the list's invariant but for the record of the last node.
    spec fn wf_body(&self) -> bool {
        &&& self.compare.wf()
        &&& linked(self.nodes@, self.chain@)
        &&& accounted(self.nodes@, self.chain@, self.free@)
        &&& self.head == link_at(self.chain@, 0)
    }

    /// The links lead from the head through every node once and end after the
    /// tail; no node is kept that is not on that way.
    pub closed spec fn wf(&self) -> bool {
        &&& self.wf_body()
        &&& self.tail == link_at(self.chain@, self.chain@.len() - 1)
    }

    /// The list has as many slots in use as it has elements, and none of
    /// them twice.
    pub proof fn lemma_slots(&self)
        requires
            self.wf(),
        ensures
            self.slots().len() == self@.len(),
            self.slots().no_duplicates(),
    {
    }

    /// The node recorded as the first is the node at position 0, and there
    /// is none exactly where the list is empty.
    pub proof fn lemma_head_is_first(&self)
        requires
            self.wf(),
        ensures
            self.head_node() == if self@.len() == 0 {
                None
            } else {
                Some(self.node_at(0))
            },
    {
        if self@.len() > 0 {
            assert(node_links(self.nodes@, self.chain@, 0));
        }
    }

    /// The node recorded as the last is the node at the last position, which
    /// has no successor, and there is none exactly where the list is empty.
    pub proof fn lemma_tail_is_last(&self)
        requires
            self.wf(),
        ensures
            self.tail_node() == if self@.len() == 0 {
                None
            } else {
                Some(LinkedListNode { value: self@.last(), next: None })
            },
    {
        if self@.len() > 0 {
            assert(node_links(self.nodes@, self.chain@, self@.len() - 1));
        }
    }

    /// A list without elements has no node on record, neither as its first
    /// nor as its last: so it is after a deletion that has emptied it.
    pub proof fn lemma_empty_has_no_ends(&self)
        requires
            self.wf(),
            self@.len() == 0,
        ensures
            self.head_node() is None,
            self.tail_node() is None,
    {
        self.lemma_head_is_first();
        self.lemma_tail_is_last();
    }

    /// An empty list that compares its elements with `compare_function`, or
    /// by their natural order where none is given.
    pub fn new(compare_function: Option<Box<dyn CompareFunction<T>>>) -> (list: Self)
        requires
            compare_function is None ==> has_natural_order::<T>(),
            compare_function matches Some(f) ==> forall|a: T, b: T| f.accepts(a, b),
            compare_function matches Some(f) ==> forall|a: T, b: T, r: i32, s: i32|
                f.yields(a, b, r) && f.yields(a, b, s) ==> r == s,
        ensures
            list.wf(),
            list@ == Seq::<T>::empty(),
            forall|a: T, b: T, r: i32|
                (#[trigger] list.comparator().yields(a, b, r)) <==> match compare_function {
                    Some(f) => f.yields(a, b, r),
                    None => r == natural_order(a, b),
                },
            compare_function is None ==> forall|a: T, b: T|
                (#[trigger] list.comparator().result(a, b)) == natural_order(a, b),
    {
        Self::with_comparator(Comparator::new(compare_function))
    }

    /// An empty list that compares its elements with `compare`.
    pub fn with_comparator(compare: Comparator<T>) -> (list: Self)
        requires
            compare.wf(),
        ensures
            list.wf(),
            list@ == Seq::<T>::empty(),
            list.comparator() == compare,
    {
        LinkedList {
            nodes: Vec::new(),
            free: Vec::new(),
            head: None,
            tail: None,
            compare,
            chain: Ghost(Seq::empty()),
        }
    }

    /// Puts `value` before all other elements.
    pub fn prepend(&mut self, value: T) -> (list: &mut Self)
        requires
            old(self).wf(),
        ensures
            list.wf(),
            list@ == seq![value] + old(self)@,
            list.comparator() == old(self).comparator(),
            *final(self) == *final(list),
    {
        self.link(None, Ghost(0), value);
        if self.tail.is_none() {
            self.tail = self.head;
        }
        self
    }

    /// Puts `value` behind all other elements.
    pub fn append(&mut self, value: T) -> (list: &mut Self)
        requires
            old(self).wf(),
        ensures
            list.wf(),
            list@ == old(self)@.push(value),
            list.comparator() == old(self).comparator(),
            *final(self) == *final(list),
    {
        let ghost len = self.chain@.len() as int;
        match self.tail {
            Some(tail) => {
                let slot = self.link(Some(tail), Ghost(len), value);
                self.tail = Some(slot);
            },
            None => {
                self.link(None, Ghost(0), value);
                self.tail = self.head;
            },
        }
        self
    }

    /// Puts `value` at position `index`, so that it follows the element that
    /// was at `index - 1`. Where the list has no element at `index - 1`, and
    /// `index` is not 0, the list stays as it is.
    pub fn insert(&mut self, value: T, index: usize)
        requires
            old(self).wf(),
        ensures
            final(self).wf(),
            final(self).comparator() == old(self).comparator(),
            final(self)@ == if index <= old(self)@.len() {
                old(self)@.insert(index as int, value)
            } else {
                old(self)@
            },
    {
        if index == 0 {
            self.prepend(value);
        } else {
            match self.walk(index - 1) {
                Some(pred) => {
                    let slot = self.link(Some(pred), Ghost(index as int), value);
                    if self.node_in(slot, Ghost(index as int)).next.is_none() {
                        self.tail = Some(slot);
                    }
                },
                None => {},
            }
        }
    }

    /// Takes every node out of the list whose value the comparator finds
    /// equal to `value`, and returns the last of them.
    pub fn delete(&mut self, value: T) -> (node: Option<LinkedListNode<T>>)
        requires
            old(self).wf(),
        ensures
            final(self).wf(),
            final(self).comparator() == old(self).comparator(),
            final(self)@ == old(self)@.filter(old(self).comparator().differs_from(value)),
            node == detached(old(self).comparator().last_equal(old(self)@, value)),
            old(self).comparator().decided_all(old(self)@, value),
    {
        let ghost initial = self@;
        let ghost n = initial.len() as int;
        let ghost c = self.compare;
        let ghost keep = c.differs_from(value);
        let ghost mut seen: int = 0;
        let mut deleted: Option<LinkedListNode<T>> = None;
        proof {
            c.lemma_none_seen(initial, value);
        }
        // The nodes at the head, as long as the head is equal to `value`.
        loop
            invariant
                self.wf_body(),
                self.compare == c,
                keep == c.differs_from(value),
                n == initial.len(),
                0 <= seen <= n,
                self@ == initial.skip(seen),
                initial.take(seen).filter(keep) == Seq::<T>::empty(),
                deleted == detached(c.last_equal(initial.take(seen), value)),
                c.decided_all(initial.take(seen), value),
            ensures
                self.head is Some ==> seen < n && !c.spec_equal(initial[seen], value) && c.decided(
                    initial[seen],
                    value,
                ),
            decreases n - seen,
        {
            match self.head {
                None => {
                    break ;
                },
                Some(first) => {
                    if !self.compare.equal(&self.node_in(first, Ghost(0)).value, &value) {
                        break ;
                    }
                    let node = self.unlink(None, Ghost(0));
                    deleted = Some(node);
                    proof {
                        c.lemma_one_more_seen(initial, value, seen);
                        seen = seen + 1;
                    }
                },
            }
        }
        // The nodes behind `current`, which stays: it is the last node that
        // has been looked at and found different from `value`.
        match self.head {
            None => {
                self.tail = None;
            },
            Some(first) => {
                let mut current = first;
                let ghost mut j: int = 0;
                proof {
                    c.lemma_one_more_seen(initial, value, seen);
                    assert(self@.skip(1) == initial.skip(seen + 1));
                    seen = seen + 1;
                }
                loop
                    invariant
                        self.wf_body(),
                        self.compare == c,
                        keep == c.differs_from(value),
                        n == initial.len(),
                        0 < seen <= n,
                        0 <= j < self.chain@.len(),
                        current == self.chain@[j],
                        self@.take(j + 1) == initial.take(seen).filter(keep),
                        self@.skip(j + 1) == initial.skip(seen),
                        deleted == detached(c.last_equal(initial.take(seen), value)),
                        c.decided_all(initial.take(seen), value),
                    ensures
                        seen == n,
                        j == self.chain@.len() - 1,
                    decreases n - seen,
                {
                    let ghost before = self@;
                    assert(before.skip(j + 1).len() == initial.skip(seen).len());
                    match self.node_in(current, Ghost(j)).next {
                        None => {
                            break ;
                        },
                        Some(next) => {
                            assert(before.skip(j + 1)[0] == initial.skip(seen)[0]);
                            let equal = self.compare.equal(
                                &self.node_in(next, Ghost(j + 1)).value,
                                &value,
                            );
                            if equal {
                                let node = self.unlink(Some(current), Ghost(j + 1));
                                deleted = Some(node);
                                assert(self@.take(j + 1) == before.take(j + 1));
                                assert(self@.skip(j + 1) == before.skip(j + 1).skip(1));
                            } else {
                                current = next;
                                proof {
                                    assert(self@.take(j + 2) == self@.take(j + 1).push(
                                        initial[seen],
                                    ));
                                    assert(self@.skip(j + 2) == before.skip(j + 1).skip(1));
                                    j = j + 1;
                                }
                            }
                            proof {
                                c.lemma_one_more_seen(initial, value, seen);
                                assert(initial.skip(seen + 1) == initial.skip(seen).skip(1));
                                seen = seen + 1;
                            }
                        },
                    }
                }
                self.tail = Some(current);
                assert(self@.take(j + 1) == self@);
            },
        }
        assert(initial.take(n) == initial);
        deleted
    }

    /// A copy of the first node that passes `callback`, or, where no
    /// `callback` is given, of the first node whose value the comparator
    /// finds equal to `value`. Where neither is given, nothing is found.
    pub fn find(
        &self,
        value: Option<&T>,
        callback: Option<&dyn Predicate<T>>,
    ) -> (node: Option<LinkedListNode<T>>) where T: Clone
        requires
            self.wf(),
            callback matches Some(test) ==> forall|i: int|
                0 <= i < self@.len() ==> test.accepts(#[trigger] self@[i]),
        ensures
            callback matches Some(test) ==> match node {
                Some(found) => exists|i: int|
                    {
                        &&& 0 <= i < self@.len()
                        &&& is_copy_of(found, #[trigger] self.node_at(i))
                        &&& test.yields(self@[i], true)
                        &&& forall|j: int| 0 <= j < i ==> test.yields(#[trigger] self@[j], false)
                    },
                None => forall|j: int|
                    0 <= j < self@.len() ==> test.yields(#[trigger] self@[j], false),
            },
            callback is None ==> match (value, node) {
                (Some(wanted), Some(found)) => exists|i: int|
                    {
                        &&& self.comparator().is_first_equal(self@, *wanted, i)
                        &&& is_copy_of(found, #[trigger] self.node_at(i))
                        &&& forall|j: int|
                            0 <= j <= i ==> self.comparator().decided(#[trigger] self@[j], *wanted)
                    },
                (Some(wanted), None) => {
                    &&& forall|j: int|
                        0 <= j < self@.len() ==> !self.comparator().spec_equal(
                            #[trigger] self@[j],
                            *wanted,
                        )
                    &&& self.comparator().decided_all(self@, *wanted)
                },
                (None, _) => node is None,
            },
    {
        let mut current = self.head;
        let ghost mut j: int = 0;
        while current.is_some()
            invariant
                self.wf(),
                0 <= j <= self@.len(),
                current == link_at(self.chain@, j),
                callback matches Some(test) ==> forall|i: int|
                    0 <= i < self@.len() ==> test.accepts(#[trigger] self@[i]),
                callback matches Some(test) ==> forall|i: int|
                    0 <= i < j ==> test.yields(#[trigger] self@[i], false),
                callback is None ==> (value matches Some(wanted) ==> forall|i: int|
                    0 <= i < j ==> !self.compare.spec_equal(#[trigger] self@[i], *wanted)
                        && self.compare.decided(self@[i], *wanted)),
            decreases self@.len() - j,
        {
            let node = self.node_in(current.unwrap(), Ghost(j));
            let found = match callback {
                Some(test) => test.test(&node.value),
                None => match value {
                    Some(wanted) => self.compare.equal(&node.value, wanted),
                    None => false,
                },
            };
            if found {
                return Some(node.clone());
            }
            current = node.next;
            proof {
                j = j + 1;
            }
        }
        None
    }

    /// A copy of the first node whose value passes `test`, stated over the
    /// contract of the function or closure `test`.
    pub fn find_by<F: Fn(&T) -> bool>(&self, test: &F) -> (node: Option<LinkedListNode<T>>) where
        T: Clone,

        requires
            self.wf(),
            forall|i: int| 0 <= i < self@.len() ==> call_requires(*test, (&#[trigger] self@[i],)),
        ensures
            match node {
                Some(found) => exists|i: int|
                    {
                        &&& 0 <= i < self@.len()
                        &&& is_copy_of(found, #[trigger] self.node_at(i))
                        &&& call_ensures(*test, (&self@[i],), true)
                        &&& forall|j: int|
                            0 <= j < i ==> call_ensures(*test, (&#[trigger] self@[j],), false)
                    },
                None => forall|j: int|
                    0 <= j < self@.len() ==> call_ensures(*test, (&#[trigger] self@[j],), false),
            },
    {
        self.find(None, Some(test))
    }

    /// Takes the last node out of the list.
    pub fn delete_tail(&mut self) -> (node: Option<LinkedListNode<T>>)
        requires
            old(self).wf(),
        ensures
            final(self).wf(),
            final(self).comparator() == old(self).comparator(),
            match node {
                Some(n) => {
                    &&& old(self)@.len() > 0
                    &&& n == (LinkedListNode { value: old(self)@.last(), next: None })
                    &&& final(self)@ == old(self)@.drop_last()
                },
                None => old(self)@.len() == 0 && final(self)@ == old(self)@,
            },
    {
        if self.head.is_none() {
            return None;
        }
        let ghost len = self.chain@.len() as int;
        let first = self.head.unwrap();
        let last = self.tail.unwrap();
        let node = if first == last {
            let node = self.unlink(None, Ghost(0));
            self.tail = None;
            node
        } else {
            let mut current = first;
            let ghost mut j: int = 0;
            loop
                invariant
                    self.wf(),
                    len == self.chain@.len(),
                    0 <= j < len - 1,
                    current == self.chain@[j],
                    last == self.chain@[len - 1],
                ensures
                    j == len - 2,
                decreases len - j,
            {
                let next = self.node_in(current, Ghost(j)).next.unwrap();
                if next == last {
                    break;
                }
                current = next;
                proof {
                    j = j + 1;
                }
            }
            let node = self.unlink(Some(current), Ghost(len - 1));
            self.tail = Some(current);
            node
        };
        Some(node)
    }

    /// Takes the first node out of the list.
    pub fn delete_head(&mut self) -> (node: Option<LinkedListNode<T>>)
        requires
            old(self).wf(),
        ensures
            final(self).wf(),
            final(self).comparator() == old(self).comparator(),
            match node {
                Some(n) => {
                    &&& old(self)@.len() > 0
                    &&& n == (LinkedListNode { value: old(self)@[0], next: None })
                    &&& final(self)@ == old(self)@.drop_first()
                },
                None => old(self)@.len() == 0 && final(self)@ == old(self)@,
            },
    {
        if self.head.is_none() {
            return None;
        }
        let node = self.unlink(None, Ghost(0));
        if self.head.is_none() {
            self.tail = None;
        }
        Some(node)
    }

    /// Appends each element of `values`, the first of them first.
    pub fn from_vec(&mut self, values: Vec<T>)
        requires
            old(self).wf(),
        ensures
            final(self).wf(),
            final(self).comparator() == old(self).comparator(),
            final(self)@ == after_appends(old(self)@, values@),
            final(self)@ == old(self)@ + values@,
    {
        let ghost start = self@;
        for value in it: values
            invariant
                self.wf(),
                self.compare == old(self).compare,
                self@ == start + values@.take(it.index() as int),
        {
            self.append(value);
        }
        proof {
            law_appends_keep_order(start, values@);
        }
    }

    /// Copies of the elements, head first.
    pub fn to_vec(&self) -> (values: Vec<T>) where T: Clone
        requires
            self.wf(),
        ensures
            values@.len() == self@.len(),
            forall|i: int| 0 <= i < self@.len() ==> cloned(self@[i], #[trigger] values@[i]),
    {
        let mut values: Vec<T> = Vec::new();
        let mut current = self.head;
        while current.is_some()
            invariant
                self.wf(),
                values@.len() <= self@.len(),
                current == link_at(self.chain@, values@.len() as int),
                forall|i: int| 0 <= i < values@.len() ==> cloned(self@[i], #[trigger] values@[i]),
            decreases self@.len() - values@.len(),
        {
            let node = self.node_in(current.unwrap(), Ghost(values@.len() as int));
            values.push(node.value.clone());
            current = node.next;
        }
        values
    }

    /// The `Debug` texts of the elements, head first, with a comma between
    /// each two of them.
    pub fn to_string(&self) -> (text: String) where T: core::fmt::Debug
        requires
            self.wf(),
        ensures
            exists|parts: Seq<String>|
                {
                    &&& parts.len() == self@.len()
                    &&& forall|i: int|
                        0 <= i < parts.len() ==> is_debug_text(self@[i], #[trigger] parts[i])
                    &&& text@ == comma_joined(texts(parts))
                },
    {
        let mut parts: Vec<String> = Vec::new();
        let mut current = self.head;
        while current.is_some()
            invariant
                self.wf(),
                parts@.len() <= self@.len(),
                current == link_at(self.chain@, parts@.len() as int),
                forall|i: int|
                    0 <= i < parts@.len() ==> is_debug_text(self@[i], #[trigger] parts@[i]),
            decreases self@.len() - parts@.len(),
        {
            let node = self.node_in(current.unwrap(), Ghost(parts@.len() as int));
            parts.push(debug_string(&node.value));
            current = node.next;
        }
        join_with_commas(&parts)
    }

    /// Turns the order of the elements round, by turning each link round.
    pub fn reverse(&mut self)
        requires
            old(self).wf(),
        ensures
            final(self).wf(),
            final(self).comparator() == old(self).comparator(),
            final(self)@ == old(self)@.reverse(),
    {
        let ghost chain = self.chain@;
        let ghost initial = self.nodes@;
        let ghost mut k: int = 0;
        let mut prev: Link = None;
        let mut current = self.head;
        self.tail = self.head;
        assert forall|i: int| 0 <= i < chain.len() implies #[trigger] turned_at(
            initial,
            initial,
            chain,
            0,
            i,
        ) by {
            assert(node_links(initial, chain, i));
        }
        while current.is_some()
            invariant
                0 <= k <= chain.len(),
                chain.no_duplicates(),
                turned(self.nodes@, initial, chain, k),
                current == link_at(chain, k),
                prev == link_at(chain, k - 1),
                self.chain@ == chain,
                self.free == old(self).free,
                self.compare == old(self).compare,
                self.tail == link_at(chain, 0),
            decreases chain.len() - k,
        {
            let slot = current.unwrap();
            let ghost before = self.nodes@;
            assert(turned_at(before, initial, chain, k, k));
            let next = self.nodes[slot].as_ref().unwrap().next;
            self.set_next(slot, prev);
            prev = current;
            current = next;
            proof {
                assert forall|i: int| 0 <= i < chain.len() implies #[trigger] turned_at(
                    self.nodes@,
                    initial,
                    chain,
                    k + 1,
                    i,
                ) by {
                    assert(turned_at(before, initial, chain, k, i));
                }
                assert forall|s: usize| s < self.nodes@.len() implies ((
                #[trigger] self.nodes@[s as int]) is Some <==> initial[s as int] is Some) by {
                    assert(before[s as int] is Some <==> initial[s as int] is Some);
                }
                k = k + 1;
            }
        }
        self.head = prev;
        proof {
            let n = chain.len() as int;
            let turned_chain = chain.reverse();
            self.chain@ = turned_chain;
            let after = self.nodes@;
            assert forall|i: int| 0 <= i < n implies #[trigger] node_links(
                after,
                turned_chain,
                i,
            ) by {
                assert(turned_at(after, initial, chain, n, n - 1 - i));
            }
            assert forall|s: usize| s < after.len() implies match #[trigger] after[s as int] {
                Some(_) => turned_chain.contains(s),
                None => self.free@.contains(s),
            } by {
                if initial[s as int] is Some {
                    let i = chain.index_of(s);
                    assert(turned_chain[n - 1 - i] == s);
                }
            }
            assert forall|j: int| 0 <= j < self.free@.len() implies (#[trigger] self.free@[j])
                < after.len() && after[self.free@[j] as int] is None by {
                let s = self.free@[j];
                assert(after[s as int] is Some <==> initial[s as int] is Some);
            }
            assert(self@ =~= old(self)@.reverse()) by {
                assert forall|i: int| 0 <= i < n implies self@[i] == old(self)@.reverse()[i] by {
                    assert(turned_at(after, initial, chain, n, n - 1 - i));
                }
            }
        }
    }

    /// The first node.
    pub fn head(&self) -> (node: Option<&LinkedListNode<T>>)
        requires
            self.wf(),
        ensures
            match node {
                Some(n) => self@.len() > 0 && *n == self.node_at(0),
                None => self@.len() == 0,
            },
    {
        match self.head {
            Some(slot) => Some(self.node_in(slot, Ghost(0))),
            None => None,
        }
    }

    /// The last node.
    pub fn tail(&self) -> (node: Option<&LinkedListNode<T>>)
        requires
            self.wf(),
        ensures
            match node {
                Some(n) => self@.len() > 0 && *n == self.node_at(self@.len() - 1),
                None => self@.len() == 0,
            },
    {
        match self.tail {
            Some(slot) => Some(self.node_in(slot, Ghost(self.chain@.len() - 1))),
            None => None,
        }
    }

    /// The node that `link` leads to, where it leads to a node of this list.
    pub fn follow(&self, link: Link) -> (node: Option<&LinkedListNode<T>>)
        requires
            self.wf(),
        ensures
            match node {
                Some(n) => exists|i: int|
                    0 <= i < self@.len() && link == Some(#[trigger] self.slots()[i]) && *n
                        == self.node_at(i),
                None => link matches Some(slot) ==> !self.slots().contains(slot),
            },
    {
        match link {
            Some(slot) if slot < self.nodes.len() => {
                let node = self.nodes[slot].as_ref();
                proof {
                    if node is Some {
                        let i = self.chain@.index_of(slot);
                        assert(node_links(self.nodes@, self.chain@, i));
                        assert(self.slots()[i] == slot);
                    } else if self.chain@.contains(slot) {
                        let i = self.chain@.index_of(slot);
                        assert(node_links(self.nodes@, self.chain@, i));
                    }
                }
                node
            },
            Some(slot) => {
                proof {
                    if self.chain@.contains(slot) {
                        let i = self.chain@.index_of(slot);
                        assert(node_links(self.nodes@, self.chain@, i));
                    }
                }
                None
            },
            None => None,
        }
    }

    /// Puts `node` into a vacant slot, a recycled one where there is one.
    fn store(&mut self, node: LinkedListNode<T>) -> (slot: usize)
        requires
            linked(old(self).nodes@, old(self).chain@),
            accounted(old(self).nodes@, old(self).chain@, old(self).free@),
        ensures
            slot <= old(self).nodes.len(),
            !old(self).chain@.contains(slot),
            final(self).nodes@ == if slot < old(self).nodes.len() {
                old(self).nodes@.update(slot as int, Some(node))
            } else {
                old(self).nodes@.push(Some(node))
            },
            accounted(final(self).nodes@, old(self).chain@.push(slot), final(self).free@),
            final(self).head == old(self).head,
            final(self).tail == old(self).tail,
            final(self).compare == old(self).compare,
            final(self).chain == old(self).chain,
    {
        let ghost chain = self.chain@;
        let ghost free = self.free@;
        let ghost before = self.nodes@;
        let slot = match self.free.pop() {
            Some(slot) => {
                self.nodes[slot] = Some(node);
                slot
            },
            None => {
                self.nodes.push(Some(node));
                self.nodes.len() - 1
            },
        };
        proof {
            if chain.contains(slot) {
                let i = chain.index_of(slot);
                assert(node_links(before, chain, i));
            }
            let after = self.nodes@;
            let grown = chain.push(slot);
            assert forall|s: usize| s < after.len() implies match #[trigger] after[s as int] {
                Some(_) => grown.contains(s),
                None => self.free@.contains(s),
            } by {
                if s == slot {
                    assert(grown[chain.len() as int] == slot);
                } else {
                    match before[s as int] {
                        Some(_) => {
                            let i = chain.index_of(s);
                            assert(grown[i] == s);
                        },
                        None => {
                            let j = free.index_of(s);
                            assert(self.free@[j] == s);
                        },
                    }
                }
            }
        }
        slot
    }

    /// The node in `slot`, which is at position `j`.
    fn node_in(&self, slot: usize, Ghost(j): Ghost<int>) -> (node: &LinkedListNode<T>)
        requires
            linked(self.nodes@, self.chain@),
            0 <= j < self.chain@.len(),
            self.chain@[j] == slot,
        ensures
            *node == self.node_at(j),
            slot < self.nodes.len(),
            self.nodes@[slot as int] == Some(*node),
    {
        assert(node_links(self.nodes@, self.chain@, j));
        self.nodes[slot].as_ref().unwrap()
    }

    /// Points the node in `slot` to `next`.
    fn set_next(&mut self, slot: usize, next: Link)
        requires
            slot < old(self).nodes.len(),
            old(self).nodes@[slot as int] is Some,
        ensures
            final(self).nodes@ == old(self).nodes@.update(
                slot as int,
                Some(LinkedListNode { value: old(self).nodes@[slot as int].unwrap().value, next }),
            ),
            final(self).free == old(self).free,
            final(self).head == old(self).head,
            final(self).tail == old(self).tail,
            final(self).compare == old(self).compare,
            final(self).chain == old(self).chain,
    {
        match &mut self.nodes[slot] {
            Some(node) => {
                node.next = next;
            },
            None => {},
        }
    }

    /// Puts a node with `value` at position `k`: behind the node in `pred`,
    /// or before all others where `pred` is no link.
    fn link(&mut self, pred: Link, Ghost(k): Ghost<int>, value: T) -> (slot: usize)
        requires
            old(self).wf_body(),
            0 <= k <= old(self).chain@.len(),
            pred == link_at(old(self).chain@, k - 1),
        ensures
            final(self).wf_body(),
            final(self).chain@ == old(self).chain@.insert(k, slot),
            final(self)@ == old(self)@.insert(k, value),
            final(self).tail == old(self).tail,
            final(self).compare == old(self).compare,
    {
        let ghost chain = self.chain@;
        let ghost before = self.nodes@;
        let next = match pred {
            Some(p) => self.node_in(p, Ghost(k - 1)).next,
            None => self.head,
        };
        let slot = self.store(LinkedListNode::new(value, next));
        let ghost stored = self.nodes@;
        match pred {
            Some(p) => {
                self.set_next(p, Some(slot));
            },
            None => {
                self.head = Some(slot);
            },
        }
        proof {
            let grown = chain.insert(k, slot);
            self.chain@ = grown;
            let after = self.nodes@;
            assert forall|i: int| 0 <= i < grown.len() implies #[trigger] node_links(
                after,
                grown,
                i,
            ) by {
                if i < k {
                    assert(node_links(before, chain, i));
                } else if i > k {
                    assert(node_links(before, chain, i - 1));
                }
            }
            assert forall|s: usize| s < after.len() implies match #[trigger] after[s as int] {
                Some(_) => grown.contains(s),
                None => self.free@.contains(s),
            } by {
                if stored[s as int] is Some {
                    let i = chain.push(slot).index_of(s);
                    if i == chain.len() {
                        assert(grown[k] == s);
                    } else if i < k {
                        assert(grown[i] == s);
                    } else {
                        assert(grown[i + 1] == s);
                    }
                }
            }
            assert(self@ =~= old(self)@.insert(k, value)) by {
                assert forall|i: int| 0 <= i < grown.len() implies self@[i] == old(self)@.insert(
                    k,
                    value,
                )[i] by {
                    if i < k {
                        assert(node_links(before, chain, i));
                    } else if i > k {
                        assert(node_links(before, chain, i - 1));
                    }
                }
            }
        }
        slot
    }

    /// Takes the node at position `k` out of the list: the one behind the node
    /// in `pred`, or the first where `pred` is no link.
    fn unlink(&mut self, pred: Link, Ghost(k): Ghost<int>) -> (node: LinkedListNode<T>)
        requires
            old(self).wf_body(),
            0 <= k < old(self).chain@.len(),
            pred == link_at(old(self).chain@, k - 1),
        ensures
            final(self).wf_body(),
            final(self).chain@ == old(self).chain@.remove(k),
            final(self)@ == old(self)@.remove(k),
            node == (LinkedListNode { value: old(self)@[k], next: None }),
            final(self).tail == old(self).tail,
            final(self).compare == old(self).compare,
    {
        let ghost chain = self.chain@;
        let ghost free = self.free@;
        let ghost before = self.nodes@;
        assert(node_links(before, chain, k));
        let link = match pred {
            Some(p) => self.node_in(p, Ghost(k - 1)).next,
            None => self.head,
        };
        let slot = link.unwrap();
        let mut node = self.nodes[slot].take().unwrap();
        self.free.push(slot);
        let next = node.next;
        node.next = None;
        match pred {
            Some(p) => {
                self.set_next(p, next);
            },
            None => {
                self.head = next;
            },
        }
        proof {
            let shrunk = chain.remove(k);
            self.chain@ = shrunk;
            let after = self.nodes@;
            assert(!free.contains(slot)) by {
                if free.contains(slot) {
                    assert(before[free[free.index_of(slot)] as int] is None);
                }
            }
            assert forall|i: int| 0 <= i < shrunk.len() implies #[trigger] node_links(
                after,
                shrunk,
                i,
            ) by {
                if i < k {
                    assert(node_links(before, chain, i));
                } else {
                    assert(node_links(before, chain, i + 1));
                }
            }
            assert forall|s: usize| s < after.len() implies match #[trigger] after[s as int] {
                Some(_) => shrunk.contains(s),
                None => self.free@.contains(s),
            } by {
                if s == slot {
                    assert(self.free@[free.len() as int] == slot);
                } else {
                    match before[s as int] {
                        Some(_) => {
                            let i = chain.index_of(s);
                            if i < k {
                                assert(shrunk[i] == s);
                            } else {
                                assert(shrunk[i - 1] == s);
                            }
                        },
                        None => {
                            let j = free.index_of(s);
                            assert(self.free@[j] == s);
                        },
                    }
                }
            }
            assert(self@ =~= old(self)@.remove(k)) by {
                assert forall|i: int| 0 <= i < shrunk.len() implies self@[i] == old(self)@.remove(
                    k,
                )[i] by {
                    if i < k {
                        assert(node_links(before, chain, i));
                    } else {
                        assert(node_links(before, chain, i + 1));
                    }
                }
            }
        }
        node
    }

    /// The link to position `index`, found by walking from the head.
    fn walk(&self, index: usize) -> (link: Link)
        requires
            self.wf_body(),
        ensures
            link == link_at(self.chain@, index as int),
    {
        let mut current = self.head;
        let mut count: usize = 0;
        while count < index && current.is_some()
            invariant
                self.wf_body(),
                count <= index,
                current == link_at(self.chain@, count as int),
            decreases index - count,
        {
            current = self.node_in(current.unwrap(), Ghost(count as int)).next;
            count += 1;
        }
        current
    }
}

} // verus!
