//! A list whose node methods work at the far end of the chain.
//!
//! The list holds an optional first node and delegates pushing to the nodes
//! themselves, which walk their successors recursively until the end of the
//! chain is found. The view of a list is the sequence of its elements in
//! traversal order.

use vstd::prelude::*;

verus! {

/// One element together with ownership of the next node, if any.
pub struct Node<T> {
    data: T,
    next: Option<Box<Node<T>>>,
}

/// A list that grows at the back through its nodes' own methods.
pub struct LinkedListCell<T> {
    head: Option<Box<Node<T>>>,
}

/// The elements of the chain starting at `link`, in traversal order.
pub closed spec fn link_view<T>(link: Option<Box<Node<T>>>) -> Seq<T>
    decreases link,
{
    match link {
        None => Seq::empty(),
        Some(node) => seq![node.data] + link_view(node.next),
    }
}

/// A chain is `None` exactly when it holds no element.
proof fn lemma_link_view_empty<T>(link: Option<Box<Node<T>>>)
    ensures
        (link is None) <==> link_view(link).len() == 0,
{
    match link {
        None => {},
        Some(node) => {
            assert(link_view(link) == seq![node.data] + link_view(node.next));
        },
    }
}

impl<T> View for LinkedListCell<T> {
    type V = Seq<T>;

    closed spec fn view(&self) -> Seq<T> {
        link_view(self.head)
    }
}

impl<T> LinkedListCell<T> {
    /// A list holding the single element `value`.
    pub fn new(value: T) -> (r: Self)
        ensures
            r@ == seq![value],
    {
        Self { head: Node::new_boxed(value) }
    }

    /// True exactly when the list holds no element.
    pub fn is_empty(&self) -> (r: bool)
        ensures
            r == (self@.len() == 0),
    {
        proof {
            lemma_link_view_empty(self.head);
        }
        self.head.is_none()
    }

    /// Appends `value` after the last element: installs a head node when
    /// the list is empty, else hands the push to the head node.
    pub fn push_back(&mut self, value: T)
        ensures
            final(self)@ == old(self)@.push(value),
    {
        match self.head.take() {
            None => {
                self.head = Node::new_boxed(value);
                proof {
                    assert(self@ =~= old(self)@.push(value));
                }
            },
            Some(mut node) => {
                (&mut *node).push_back(value);
                self.head = Some(node);
                proof {
                    assert(self@ =~= old(self)@.push(value));
                }
            },
        }
    }
}

impl<T> Default for LinkedListCell<T> {
    /// The empty list.
    fn default() -> (r: Self)
        ensures
            r@ == Seq::<T>::empty(),
    {
        Self { head: None }
    }
}

impl<T> View for Node<T> {
    type V = Seq<T>;

    closed spec fn view(&self) -> Seq<T> {
        seq![self.data] + link_view(self.next)
    }
}

impl<T> Node<T> {
    /// A node holding `data` with no successor.
    pub fn new(data: T) -> (r: Self)
        ensures
            r@ == seq![data],
    {
        let r = Node { data, next: None };
        proof {
            assert(r@ =~= seq![data]);
        }
        r
    }

    /// A one-node chain holding `value`.
    pub fn new_boxed(value: T) -> (r: Option<Box<Node<T>>>)
        ensures
            link_view(r) == seq![value],
    {
        let r = Some(Box::new(Node::new(value)));
        proof {
            assert(link_view(r) =~= seq![value]);
        }
        r
    }

    /// Appends `value` after the last node of the chain hanging off this
    /// node, walking the successors recursively until the end is found.
    pub fn push_back(&mut self, value: T)
        ensures
            final(self)@ == old(self)@.push(value),
        decreases *old(self),
    {
        match self.next.take() {
            None => {
                self.next = Node::new_boxed(value);
                proof {
                    assert(self@ =~= old(self)@.push(value));
                }
            },
            Some(mut node) => {
                (&mut *node).push_back(value);
                self.next = Some(node);
                proof {
                    assert(self@ =~= old(self)@.push(value));
                }
            },
        }
    }

    /// Removes and returns the last element of the chain hanging off this
    /// node, by making its predecessor's successor absent. The node itself
    /// cannot remove itself, so it must have at least one successor.
    pub fn pop_back(&mut self) -> (r: T)
        requires
            old(self)@.len() >= 2,
        ensures
            final(self)@ == old(self)@.drop_last(),
            r == old(self)@.last(),
        decreases *old(self),
    {
        proof {
            lemma_link_view_empty(self.next);
        }
        let mut next = self.next.take().unwrap();
        proof {
            lemma_link_view_empty(next.next);
        }
        if next.next.is_none() {
            proof {
                assert(self@ =~= old(self)@.drop_last());
            }
            let last = *next;
            last.data
        } else {
            let r = (&mut *next).pop_back();
            self.next = Some(next);
            proof {
                assert(self@ =~= old(self)@.drop_last());
            }
            r
        }
    }
}

} // verus!
