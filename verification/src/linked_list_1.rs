//! A list as a recursive sum type over `usize` elements.
//!
//! The list and the node are one value: a list is either `Empty` or an
//! element together with exclusive ownership of the rest of the list.
//! The view of a list is the sequence of its elements in traversal order.

use vstd::prelude::*;

verus! {

/// Either the empty list, or one element followed by the owned rest.
#[derive(Debug)]
pub enum LinkedList {
    Empty,
    Elem(usize, Box<LinkedList>),
}

impl View for LinkedList {
    type V = Seq<usize>;

    open spec fn view(&self) -> Seq<usize> {
        self.seq_of()
    }
}

impl LinkedList {
    /// The elements of the list, in traversal order.
    pub open spec fn seq_of(self) -> Seq<usize>
        decreases self,
    {
        match self {
            LinkedList::Empty => Seq::empty(),
            LinkedList::Elem(v, rest) => seq![v] + rest.seq_of(),
        }
    }

    /// The empty list.
    pub fn new() -> (r: Self)
        ensures
            r@ == Seq::<usize>::empty(),
    {
        LinkedList::Empty
    }

    /// The first element, or nothing when the list is empty.
    pub fn val(&self) -> (r: Option<usize>)
        ensures
            r == (if self@.len() == 0 {
                None::<usize>
            } else {
                Some(self@[0])
            }),
    {
        match self {
            LinkedList::Empty => None,
            LinkedList::Elem(val, _) => Some(*val),
        }
    }

    /// The number of elements reachable from the head.
    pub fn len(&self) -> (r: usize)
        requires
            self@.len() <= usize::MAX,
        ensures
            r == self@.len(),
        decreases self,
    {
        match self {
            LinkedList::Empty => 0,
            LinkedList::Elem(_, next) => 1 + next.len(),
        }
    }

    /// True exactly when the list holds no element.
    pub fn is_empty(&self) -> (r: bool)
        ensures
            r == (self@.len() == 0),
    {
        match self {
            LinkedList::Empty => true,
            LinkedList::Elem(_, _) => false,
        }
    }

    /// Makes `item` the first element.
    pub fn push_front(&mut self, item: usize)
        ensures
            final(self)@ == seq![item] + old(self)@,
    {
        let mut old_head = LinkedList::new();
        core::mem::swap(&mut old_head, self);
        *self = LinkedList::Elem(item, Box::new(old_head));
    }

    /// Appends `item` after the last element.
    pub fn push_back(&mut self, item: usize)
        ensures
            final(self)@ == old(self)@.push(item),
        decreases *old(self),
    {
        let mut tmp = LinkedList::Empty;
        core::mem::swap(self, &mut tmp);
        match tmp {
            LinkedList::Empty => {
                *self = LinkedList::Elem(item, Box::new(LinkedList::Empty));
                proof {
                    assert(self@ =~= old(self)@.push(item));
                }
            },
            LinkedList::Elem(v, mut rest) => {
                (&mut *rest).push_back(item);
                *self = LinkedList::Elem(v, rest);
                proof {
                    assert(self@ =~= old(self)@.push(item));
                }
            },
        }
    }

    /// Removes and returns the last element, or nothing when the list is
    /// empty.
    pub fn pop_back(&mut self) -> (r: Option<usize>)
        ensures
            old(self)@.len() == 0 ==> r is None && final(self)@ == old(self)@,
            old(self)@.len() > 0 ==> r == Some(old(self)@.last()) && final(self)@ == old(
                self,
            )@.drop_last(),
        decreases *old(self),
    {
        let mut tmp = LinkedList::Empty;
        core::mem::swap(self, &mut tmp);
        match tmp {
            LinkedList::Empty => None,
            LinkedList::Elem(v, mut rest) => {
                if rest.is_empty() {
                    proof {
                        assert(old(self)@ =~= seq![v]);
                        assert(self@ =~= old(self)@.drop_last());
                    }
                    Some(v)
                } else {
                    let r = (&mut *rest).pop_back();
                    *self = LinkedList::Elem(v, rest);
                    proof {
                        assert(self@ =~= old(self)@.drop_last());
                    }
                    r
                }
            },
        }
    }

    /// Removes and returns the first element, or nothing when the list is
    /// empty.
    pub fn pop_front(&mut self) -> (r: Option<usize>)
        ensures
            old(self)@.len() == 0 ==> r is None && final(self)@ == old(self)@,
            old(self)@.len() > 0 ==> r == Some(old(self)@[0]) && final(self)@ == old(
                self,
            )@.drop_first(),
    {
        let mut tmp = LinkedList::Empty;
        core::mem::swap(self, &mut tmp);
        match tmp {
            LinkedList::Empty => None,
            LinkedList::Elem(v, rest) => {
                *self = *rest;
                proof {
                    assert(self@ =~= old(self)@.drop_first());
                }
                Some(v)
            },
        }
    }

    /// The 0-based position of the first element equal to `item`, or
    /// nothing when no element matches.
    pub fn find(&self, item: usize) -> (r: Option<usize>)
        requires
            self@.len() <= usize::MAX,
        ensures
            r matches Some(i) ==> i < self@.len() && self@[i as int] == item && forall|j: int|
                0 <= j < i ==> self@[j] != item,
            r is None ==> forall|j: int| 0 <= j < self@.len() ==> self@[j] != item,
        decreases self,
    {
        match self {
            LinkedList::Empty => None,
            LinkedList::Elem(v, next) => {
                if *v == item {
                    Some(0)
                } else {
                    match next.find(item) {
                        None => {
                            proof {
                                assert forall|j: int| 0 <= j < self@.len() implies self@[j]
                                    != item by {
                                    if j > 0 {
                                        assert(self@[j] == next@[j - 1]);
                                    }
                                }
                            }
                            None
                        },
                        Some(i) => {
                            proof {
                                assert(self@[i + 1] == next@[i as int]);
                                assert forall|j: int| 0 <= j < i + 1 implies self@[j] != item by {
                                    if j > 0 {
                                        assert(self@[j] == next@[j - 1]);
                                    }
                                }
                            }
                            Some(i + 1)
                        },
                    }
                }
            },
        }
    }

    /// A borrowing cursor over the elements, starting at the head.
    pub fn iter(&self) -> (it: LinkedListIter<'_>)
        ensures
            it@ == self@,
    {
        LinkedListIter { head: self }
    }
}

impl Default for LinkedList {
    /// The empty list.
    fn default() -> (r: Self)
        ensures
            r@ == Seq::<usize>::empty(),
    {
        LinkedList::Empty
    }
}

impl PartialEq for LinkedList {
    /// Structural equality: the lists match variant for variant and value
    /// for value.
    fn eq(&self, other: &LinkedList) -> (r: bool)
        decreases self,
    {
        match (self, other) {
            (LinkedList::Empty, LinkedList::Empty) => true,
            (LinkedList::Elem(a, na), LinkedList::Elem(b, nb)) => *a == *b && (&**na).eq(&**nb),
            _ => false,
        }
    }
}

impl vstd::std_specs::cmp::PartialEqSpecImpl for LinkedList {
    open spec fn obeys_eq_spec() -> bool {
        true
    }

    open spec fn eq_spec(&self, other: &LinkedList) -> bool {
        self == other
    }
}

/// A borrowing cursor: yields the elements in order.
pub struct LinkedListIter<'a> {
    head: &'a LinkedList,
}

impl<'a> View for LinkedListIter<'a> {
    type V = Seq<usize>;

    closed spec fn view(&self) -> Seq<usize> {
        self.head@
    }
}

impl<'a> LinkedListIter<'a> {
    /// Returns the next element and advances, or returns nothing once the
    /// elements are exhausted.
    pub fn next(&mut self) -> (r: Option<usize>)
        ensures
            old(self)@.len() == 0 ==> r is None && final(self)@ == old(self)@,
            old(self)@.len() > 0 ==> r == Some(old(self)@[0]) && final(self)@ == old(
                self,
            )@.drop_first(),
    {
        match self.head {
            LinkedList::Empty => None,
            LinkedList::Elem(val, next) => {
                self.head = &**next;
                proof {
                    assert(final(self)@ =~= old(self)@.drop_first());
                }
                Some(*val)
            },
        }
    }
}

} // verus!
