//! A persistent list of reference-counted, immutable nodes.
//!
//! Nodes are never changed once constructed: pushing to the front builds a
//! new head that shares the old chain, and taking the tail shares the second
//! node onward. Many lists may therefore hold the same suffix. The view of a
//! list is the sequence of its elements in traversal order.

use std::rc::Rc;
use vstd::prelude::*;

verus! {

/// One element together with a shared handle to the next node, if any.
pub struct Node<T> {
    data: T,
    next: Option<Rc<Node<T>>>,
}

/// A list sharing immutable nodes with every list derived from it.
pub struct LinkedList<T> {
    head: Option<Rc<Node<T>>>,
}

/// The elements of the shared chain starting at `link`, in traversal order.
pub closed spec fn link_view<T>(link: Option<Rc<Node<T>>>) -> Seq<T>
    decreases link,
{
    match link {
        None => Seq::empty(),
        Some(node) => seq![node.data] + link_view(node.next),
    }
}

impl<T> View for LinkedList<T> {
    type V = Seq<T>;

    closed spec fn view(&self) -> Seq<T> {
        link_view(self.head)
    }
}

impl<T> View for Node<T> {
    type V = Seq<T>;

    closed spec fn view(&self) -> Seq<T> {
        seq![self.data] + link_view(self.next)
    }
}

impl<T> Node<T> {
    /// A node holding `data` with no successor.
    pub fn new(data: T) -> (r: Self)
        ensures
            r@ == seq![data],
    {
        let r = Self { data, next: None };
        proof {
            assert(r@ =~= seq![data]);
        }
        r
    }
}

/// Relies on `Rc::clone`: the returned handle points at the same allocation
/// as the argument, so it holds the same value.
#[verifier::external_body]
fn rc_clone<T>(rc: &Rc<T>) -> (r: Rc<T>)
    ensures
        r == *rc,
{
    Rc::clone(rc)
}

/// A new handle to the chain at `link`: the clone shares every node.
fn clone_link<T>(link: &Option<Rc<Node<T>>>) -> (r: Option<Rc<Node<T>>>)
    ensures
        r == *link,
{
    match link {
        None => None,
        Some(rc) => Some(rc_clone(rc)),
    }
}

impl<T> LinkedList<T> {
    /// The list whose first node is `head`, or the empty list for `None`.
    pub fn new(head: Option<Rc<Node<T>>>) -> (r: Self)
        ensures
            r@ == link_view(head),
    {
        LinkedList { head }
    }

    /// True exactly when the list holds no element.
    pub fn is_empty(&self) -> (r: bool)
        ensures
            r == (self@.len() == 0),
    {
        proof {
            if self.head is Some {
                assert(self@.len() > 0);
            }
        }
        self.head.is_none()
    }

    /// The list of everything after the first element: a new list sharing
    /// the second node onward, or the empty list when there is no second
    /// node.
    pub fn tail(&self) -> (r: LinkedList<T>)
        ensures
            self@.len() == 0 ==> r@ == Seq::<T>::empty(),
            self@.len() > 0 ==> r@ == self@.drop_first(),
    {
        match &self.head {
            None => LinkedList { head: None },
            Some(node) => {
                let next = clone_link(&node.next);
                proof {
                    assert(link_view(next) =~= self@.drop_first());
                }
                LinkedList { head: next }
            },
        }
    }

    /// A new list with `data` in front of this list's elements. The new
    /// list shares this list's whole chain; no existing list changes.
    pub fn push_front(&self, data: T) -> (r: LinkedList<T>)
        ensures
            r@ == seq![data] + self@,
    {
        let next = clone_link(&self.head);
        LinkedList { head: Some(Rc::new(Node { data, next })) }
    }

    /// A reference to the first element, or nothing when the list is empty.
    pub fn peek(&self) -> (r: Option<&T>)
        ensures
            self@.len() == 0 ==> r is None,
            self@.len() > 0 ==> match r {
                Some(v) => *v == self@[0],
                None => false,
            },
    {
        match &self.head {
            None => None,
            Some(node) => Some(&node.data),
        }
    }

    /// A borrowing cursor over the elements, starting at the head.
    pub fn iter(&self) -> (it: LinkedListIterator<'_, T>)
        ensures
            it@ == self@,
    {
        match &self.head {
            None => LinkedListIterator { current: None },
            Some(rc) => LinkedListIterator { current: Some(&**rc) },
        }
    }
}

impl<T> Default for LinkedList<T> {
    /// The empty list.
    fn default() -> (r: Self)
        ensures
            r@ == Seq::<T>::empty(),
    {
        LinkedList { head: None }
    }
}

/// Law: pushing to the front and then taking the tail gives back exactly
/// the base list's elements, so repeated tails replay the pushes in
/// reverse construction order; and two lists pushed onto the same base
/// have independent heads over one shared tail — neither list's view
/// shows the other's pushed element. Stated over the sequence views that
/// the contracts of `push_front` and `tail` use.
pub proof fn lemma_push_front_then_tail<T>(base: Seq<T>, a: T, b: T)
    ensures
        (seq![a] + base)[0] == a,
        (seq![a] + base).drop_first() == base,
        (seq![b] + base)[0] == b,
        (seq![b] + base).drop_first() == base,
        a != b ==> (seq![a] + base)[0] != (seq![b] + base)[0],
{
    assert((seq![a] + base).drop_first() =~= base);
    assert((seq![b] + base).drop_first() =~= base);
}

/// A borrowing cursor: yields references to the elements in order.
pub struct LinkedListIterator<'a, T> {
    current: Option<&'a Node<T>>,
}

impl<'a, T> View for LinkedListIterator<'a, T> {
    type V = Seq<T>;

    closed spec fn view(&self) -> Seq<T> {
        match self.current {
            None => Seq::empty(),
            Some(node) => node@,
        }
    }
}

impl<'a, T> LinkedListIterator<'a, T> {
    /// Returns a reference to the next element and advances, or returns
    /// nothing once the elements are exhausted.
    pub fn next(&mut self) -> (r: Option<&'a T>)
        ensures
            old(self)@.len() == 0 ==> r is None && final(self)@ == old(self)@,
            old(self)@.len() > 0 ==> (match r {
                Some(v) => *v == old(self)@[0],
                None => false,
            }) && final(self)@ == old(self)@.drop_first(),
    {
        match self.current {
            None => None,
            Some(node) => {
                self.current = match &node.next {
                    None => None,
                    Some(rc) => Some(&**rc),
                };
                proof {
                    assert(final(self)@ =~= old(self)@.drop_first());
                }
                Some(&node.data)
            },
        }
    }
}

} // verus!
