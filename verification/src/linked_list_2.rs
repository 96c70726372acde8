//! A generic list as a chain of exclusively owned boxed nodes.
//!
//! The list owns an optional first node and each node owns its optional
//! successor. The view of a list is the sequence of its elements in
//! traversal order. Operations that walk the chain do so by structural
//! recursion on the nodes.

use vstd::prelude::*;

verus! {

use vstd::std_specs::cmp::PartialEqSpec;

struct Node<T> {
    data: T,
    next: Option<Box<Node<T>>>,
}

/// A singly-linked chain of exclusively owned nodes holding elements of `T`.
pub struct LinkedList<T> {
    head: Option<Box<Node<T>>>,
}

/// The condition signalled by [`LinkedList::split_at`] when the requested
/// position does not name an element of the list.
#[derive(Debug, Clone, Copy, PartialEq, Eq, Structural)]
pub struct IndexOutOfBounds;

/// The elements of the chain starting at `link`, in traversal order.
spec fn link_view<T>(link: Option<Box<Node<T>>>) -> Seq<T>
    decreases link,
{
    match link {
        None => Seq::empty(),
        Some(node) => seq![node.data] + link_view(node.next),
    }
}

/// A chain is `None` exactly when it holds no element.
proof fn lemma_link_view_empty<T>(link: Option<Box<Node<T>>>)
    ensures
        (link is None) <==> link_view(link).len() == 0,
{
    match link {
        None => {},
        Some(node) => {
            assert(link_view(link) == seq![node.data] + link_view(node.next));
        },
    }
}

/// Replacing the head of a non-empty sequence is prepending to its rest.
proof fn lemma_cons_update_head<T>(d: T, t: Seq<T>, x: T)
    ensures
        (seq![d] + t).update(0, x) == seq![x] + t,
{
    assert((seq![d] + t).update(0, x) =~= seq![x] + t);
}

/// Replacing an element behind the head leaves the head alone.
proof fn lemma_cons_update_tail<T>(d: T, t: Seq<T>, k: int, x: T)
    requires
        0 <= k < t.len(),
    ensures
        (seq![d] + t).update(k + 1, x) == seq![d] + t.update(k, x),
{
    assert((seq![d] + t).update(k + 1, x) =~= seq![d] + t.update(k, x));
}

impl<T> View for LinkedList<T> {
    type V = Seq<T>;

    closed spec fn view(&self) -> Seq<T> {
        link_view(self.head)
    }
}

impl<T> Default for LinkedList<T> {
    /// The empty list.
    fn default() -> (r: Self)
        ensures
            r@ == Seq::<T>::empty(),
    {
        LinkedList { head: None }
    }
}

impl<T> LinkedList<T> {
    /// The empty list.
    pub fn new() -> (r: Self)
        ensures
            r@ == Seq::<T>::empty(),
    {
        LinkedList { head: None }
    }

    /// True exactly when the list holds no element.
    pub fn is_empty(&self) -> (r: bool)
        ensures
            r == (self@.len() == 0),
    {
        proof {
            lemma_link_view_empty(self.head);
        }
        self.head.is_none()
    }

    /// True exactly when the list holds one element: the head is present and
    /// has no successor. Constant-time.
    pub fn has_exactly_one_element(&self) -> (r: bool)
        ensures
            r == (self@.len() == 1),
    {
        match &self.head {
            None => false,
            Some(node) => {
                proof {
                    lemma_link_view_empty(node.next);
                }
                node.next.is_none()
            },
        }
    }

    /// The number of elements in the chain starting at `link`.
    fn len_link(link: &Option<Box<Node<T>>>) -> (r: usize)
        requires
            link_view(*link).len() <= usize::MAX,
        ensures
            r == link_view(*link).len(),
        decreases *link,
    {
        match link {
            None => 0,
            Some(node) => 1 + Self::len_link(&node.next),
        }
    }

    /// The number of elements reachable from the head.
    pub fn len(&self) -> (r: usize)
        requires
            self@.len() <= usize::MAX,
        ensures
            r == self@.len(),
    {
        Self::len_link(&self.head)
    }

    /// Appends `data` at the end of the chain starting at `link`.
    fn push_back_link(link: &mut Option<Box<Node<T>>>, data: T)
        ensures
            link_view(*final(link)) == link_view(*old(link)).push(data),
        decreases *old(link),
    {
        match link.take() {
            None => {
                *link = Some(Box::new(Node { data, next: None }));
                proof {
                    assert(link_view(*link) =~= link_view(*old(link)).push(data));
                }
            },
            Some(mut node) => {
                Self::push_back_link(&mut node.next, data);
                *link = Some(node);
                proof {
                    assert(link_view(*link) =~= link_view(*old(link)).push(data));
                }
            },
        }
    }

    /// Appends `data` after the last element.
    pub fn push_back(&mut self, data: T)
        ensures
            final(self)@ == old(self)@.push(data),
    {
        Self::push_back_link(&mut self.head, data);
    }

    /// Makes `data` the first element.
    pub fn push_front(&mut self, data: T)
        ensures
            final(self)@ == seq![data] + old(self)@,
    {
        let rest = self.head.take();
        self.head = Some(Box::new(Node { data, next: rest }));
    }

    /// Removes and returns the first element, or nothing when the list is
    /// empty.
    pub fn pop_front(&mut self) -> (r: Option<T>)
        ensures
            old(self)@.len() == 0 ==> r is None && final(self)@ == old(self)@,
            old(self)@.len() > 0 ==> r == Some(old(self)@[0]) && final(self)@ == old(self)@.drop_first(),
    {
        match self.head.take() {
            None => None,
            Some(node) => {
                let node = *node;
                self.head = node.next;
                proof {
                    assert(final(self)@ =~= old(self)@.drop_first());
                }
                Some(node.data)
            },
        }
    }

    /// Removes and returns the last element of the chain hanging off `node`,
    /// which must have at least one successor.
    fn pop_back_node(node: &mut Box<Node<T>>) -> (r: T)
        requires
            link_view(old(node).next).len() > 0,
        ensures
            seq![final(node).data] + link_view(final(node).next) == (seq![old(node).data]
                + link_view(old(node).next)).drop_last(),
            r == (seq![old(node).data] + link_view(old(node).next)).last(),
        decreases *old(node),
    {
        proof {
            lemma_link_view_empty(node.next);
        }
        let mut next = node.next.take().unwrap();
        if next.next.is_none() {
            proof {
                lemma_link_view_empty(next.next);
                assert(seq![node.data] + link_view(node.next) =~= (seq![old(node).data]
                    + link_view(old(node).next)).drop_last());
            }
            let last = *next;
            last.data
        } else {
            proof {
                lemma_link_view_empty(next.next);
            }
            let r = Self::pop_back_node(&mut next);
            node.next = Some(next);
            proof {
                assert(seq![node.data] + link_view(node.next) =~= (seq![old(node).data]
                    + link_view(old(node).next)).drop_last());
            }
            r
        }
    }

    /// Removes and returns the last element, or nothing when the list is
    /// empty. One forward pass, looking one node ahead.
    pub fn pop_back(&mut self) -> (r: Option<T>)
        ensures
            old(self)@.len() == 0 ==> r is None && final(self)@ == old(self)@,
            old(self)@.len() > 0 ==> r == Some(old(self)@.last()) && final(self)@ == old(
                self,
            )@.drop_last(),
    {
        match self.head.take() {
            None => None,
            Some(mut node) => {
                if node.next.is_none() {
                    proof {
                        lemma_link_view_empty(node.next);
                        assert(final(self)@ =~= old(self)@.drop_last());
                    }
                    let node = *node;
                    Some(node.data)
                } else {
                    proof {
                        lemma_link_view_empty(node.next);
                    }
                    let r = Self::pop_back_node(&mut node);
                    self.head = Some(node);
                    Some(r)
                }
            },
        }
    }

    /// The 0-based position of the first element of the chain at `link` that
    /// compares equal to `data`, or nothing when no element does.
    fn index_of_link(link: &Option<Box<Node<T>>>, data: &T) -> (r: Option<usize>) where
        T: PartialEq

        requires
            link_view(*link).len() <= usize::MAX,
        ensures
            r matches Some(i) ==> i < link_view(*link).len(),
            T::obeys_eq_spec() ==> match r {
                Some(i) => link_view(*link)[i as int].eq_spec(data) && forall|j: int|
                    0 <= j < i ==> !(#[trigger] link_view(*link)[j].eq_spec(data)),
                None => forall|j: int|
                    0 <= j < link_view(*link).len() ==> !(#[trigger] link_view(
                        *link,
                    )[j].eq_spec(data)),
            },
        decreases *link,
    {
        match link {
            None => None,
            Some(node) => {
                if node.data == *data {
                    Some(0)
                } else {
                    match Self::index_of_link(&node.next, data) {
                        None => {
                            proof {
                                if T::obeys_eq_spec() {
                                    assert forall|j: int|
                                        0 <= j < link_view(*link).len() implies !(
                                    #[trigger] link_view(*link)[j].eq_spec(data)) by {
                                        if j > 0 {
                                            assert(link_view(*link)[j] == link_view(
                                                node.next,
                                            )[j - 1]);
                                        }
                                    }
                                }
                            }
                            None
                        },
                        Some(i) => {
                            proof {
                                if T::obeys_eq_spec() {
                                    assert(link_view(*link)[i + 1] == link_view(
                                        node.next,
                                    )[i as int]);
                                    assert forall|j: int| 0 <= j < i + 1 implies !(
                                    #[trigger] link_view(*link)[j].eq_spec(data)) by {
                                        if j > 0 {
                                            assert(link_view(*link)[j] == link_view(
                                                node.next,
                                            )[j - 1]);
                                        }
                                    }
                                }
                            }
                            Some(i + 1)
                        },
                    }
                }
            },
        }
    }

    /// The 0-based position of the first element that compares equal to
    /// `data`, or nothing when no element does. Exact when `T`'s equality
    /// obeys its specification.
    pub fn first_index_of(&self, data: T) -> (r: Option<usize>) where T: PartialEq
        requires
            self@.len() <= usize::MAX,
        ensures
            r matches Some(i) ==> i < self@.len(),
            T::obeys_eq_spec() ==> match r {
                Some(i) => self@[i as int].eq_spec(&data) && forall|j: int|
                    0 <= j < i ==> !(#[trigger] self@[j].eq_spec(&data)),
                None => forall|j: int| 0 <= j < self@.len() ==> !(#[trigger] self@[j].eq_spec(&data)),
            },
    {
        Self::index_of_link(&self.head, &data)
    }

    /// The position where inserting at `index` lands in a list of length
    /// `len`: positions past the end clamp to the end.
    pub open spec fn insert_position(index: int, len: int) -> int {
        if index <= len {
            index
        } else {
            len
        }
    }

    /// Splices `data` into the chain at `link`, `index` nodes in; past the
    /// end of the chain it lands at the end.
    fn insert_at_link(link: &mut Option<Box<Node<T>>>, index: usize, data: T)
        ensures
            link_view(*final(link)) == link_view(*old(link)).insert(
                Self::insert_position(index as int, link_view(*old(link)).len() as int),
                data,
            ),
        decreases *old(link),
    {
        if index == 0 {
            let rest = link.take();
            *link = Some(Box::new(Node { data, next: rest }));
            proof {
                assert(link_view(*link) =~= link_view(*old(link)).insert(0, data));
            }
        } else {
            match link.take() {
                None => {
                    *link = Some(Box::new(Node { data, next: None }));
                    proof {
                        assert(link_view(*link) =~= link_view(*old(link)).insert(0, data));
                    }
                },
                Some(mut node) => {
                    Self::insert_at_link(&mut node.next, index - 1, data);
                    *link = Some(node);
                    proof {
                        assert(link_view(*link) =~= link_view(*old(link)).insert(
                            Self::insert_position(
                                index as int,
                                link_view(*old(link)).len() as int,
                            ),
                            data,
                        ));
                    }
                },
            }
        }
    }

    /// Inserts `data` so that it becomes the element at `index`; an index at
    /// or past the current length appends at the end instead.
    pub fn insert_at(&mut self, index: usize, data: T)
        ensures
            final(self)@ == old(self)@.insert(
                Self::insert_position(index as int, old(self)@.len() as int),
                data,
            ),
    {
        Self::insert_at_link(&mut self.head, index, data);
    }

    /// Detaches everything after the node `index` steps into the chain and
    /// returns it.
    fn split_link(link: &mut Option<Box<Node<T>>>, index: usize) -> (r: Option<Box<Node<T>>>)
        requires
            index < link_view(*old(link)).len(),
        ensures
            link_view(*final(link)) == link_view(*old(link)).subrange(0, index as int + 1),
            link_view(r) == link_view(*old(link)).subrange(
                index as int + 1,
                link_view(*old(link)).len() as int,
            ),
        decreases index,
    {
        proof {
            lemma_link_view_empty(*link);
        }
        let mut node = link.take().unwrap();
        if index == 0 {
            let rest = node.next.take();
            *link = Some(node);
            proof {
                assert(link_view(*old(link)) == seq![node.data] + link_view(rest));
                assert(node.next is None);
                assert(link_view(*link) == seq![node.data] + link_view(node.next));
                assert(link_view(*link) =~= link_view(*old(link)).subrange(0, 1));
                assert(link_view(rest) =~= link_view(*old(link)).subrange(
                    1,
                    link_view(*old(link)).len() as int,
                ));
            }
            rest
        } else {
            let rest = Self::split_link(&mut node.next, index - 1);
            *link = Some(node);
            proof {
                assert(link_view(*link) =~= link_view(*old(link)).subrange(0, index as int + 1));
                assert(link_view(rest) =~= link_view(*old(link)).subrange(
                    index as int + 1,
                    link_view(*old(link)).len() as int,
                ));
            }
            rest
        }
    }

    /// Splits the list after the element at `index`, returning the two
    /// halves, or signals [`IndexOutOfBounds`] when `index` does not name an
    /// element. Consumes the list.
    pub fn split_at(self, index: usize) -> (r: Result<(Self, Self), IndexOutOfBounds>)
        requires
            self@.len() <= usize::MAX,
        ensures
            match r {
                Ok(p) => index < self@.len() && p.0@ == self@.subrange(0, index as int + 1)
                    && p.1@ == self@.subrange(index as int + 1, self@.len() as int),
                Err(_) => index >= self@.len(),
            },
    {
        let mut first = self;
        let n = first.len();
        if index >= n {
            return Err(IndexOutOfBounds);
        }
        let rest = Self::split_link(&mut first.head, index);
        Ok((first, LinkedList { head: rest }))
    }

    /// Moves every element of `other` to the end of `self`, in order.
    fn append_link(link: &mut Option<Box<Node<T>>>, other: Option<Box<Node<T>>>)
        ensures
            link_view(*final(link)) == link_view(*old(link)) + link_view(other),
        decreases *old(link),
    {
        match link.take() {
            None => {
                *link = other;
                proof {
                    assert(link_view(*link) =~= link_view(*old(link)) + link_view(other));
                }
            },
            Some(mut node) => {
                Self::append_link(&mut node.next, other);
                *link = Some(node);
                proof {
                    assert(link_view(*link) =~= link_view(*old(link)) + link_view(other));
                }
            },
        }
    }

    /// Appends the whole of `other` after the last element of `self`,
    /// consuming `other`.
    pub fn merge(&mut self, other: Self)
        ensures
            final(self)@ == old(self)@ + other@,
    {
        Self::append_link(&mut self.head, other.head);
    }

    /// A mutable reference to the element at `index` of the chain at
    /// `link`: what the caller writes through it becomes that element.
    fn get_mut_link(link: &mut Option<Box<Node<T>>>, index: usize) -> (r: &mut T)
        requires
            index < link_view(*old(link)).len(),
        ensures
            *r == link_view(*old(link))[index as int],
            link_view(*final(link)) == link_view(*old(link)).update(index as int, *final(r)),
        decreases index,
    {
        proof {
            lemma_link_view_empty(*link);
        }
        let ghost entry = old(link).unwrap();
        let node = link.as_mut().unwrap();
        if index == 0 {
            let r = &mut node.data;
            proof {
                lemma_cons_update_head(entry.data, link_view(entry.next), *final(r));
            }
            r
        } else {
            let r = Self::get_mut_link(&mut node.next, index - 1);
            proof {
                lemma_cons_update_tail(
                    entry.data,
                    link_view(entry.next),
                    index - 1 as int,
                    *final(r),
                );
            }
            r
        }
    }

    /// A mutable reference to the element at `index`: writing through it
    /// replaces that one element in place, leaving the rest of the list
    /// unchanged.
    pub fn get_mut(&mut self, index: usize) -> (r: &mut T)
        requires
            index < old(self)@.len(),
        ensures
            *r == old(self)@[index as int],
            final(self)@ == old(self)@.update(index as int, *final(r)),
    {
        Self::get_mut_link(&mut self.head, index)
    }

    /// A borrowing cursor over the elements, starting at the head.
    pub fn iter(&self) -> (it: LinkedListIter<'_, T>)
        ensures
            it@ == self@,
    {
        LinkedListIter { current: &self.head }
    }

    /// A consuming cursor over the elements, starting at the head.
    pub fn into_iter(self) -> (it: LinkedListIntoIter<T>)
        ensures
            it@ == self@,
    {
        LinkedListIntoIter(self)
    }
}

/// A consuming cursor: yields the elements in order, draining the list.
pub struct LinkedListIntoIter<T>(LinkedList<T>);

impl<T> View for LinkedListIntoIter<T> {
    type V = Seq<T>;

    closed spec fn view(&self) -> Seq<T> {
        self.0@
    }
}

impl<T> LinkedListIntoIter<T> {
    /// Removes and returns the next element, or nothing once the elements
    /// are exhausted.
    pub fn next(&mut self) -> (r: Option<T>)
        ensures
            old(self)@.len() == 0 ==> r is None && final(self)@ == old(self)@,
            old(self)@.len() > 0 ==> r == Some(old(self)@[0]) && final(self)@ == old(
                self,
            )@.drop_first(),
    {
        self.0.pop_front()
    }
}

/// A borrowing cursor: yields references to the elements in order.
pub struct LinkedListIter<'a, T> {
    current: &'a Option<Box<Node<T>>>,
}

impl<'a, T> View for LinkedListIter<'a, T> {
    type V = Seq<T>;

    closed spec fn view(&self) -> Seq<T> {
        link_view(*self.current)
    }
}

impl<'a, T> LinkedListIter<'a, T> {
    /// Returns a reference to the next element and advances, or returns
    /// nothing once the elements are exhausted.
    pub fn next(&mut self) -> (r: Option<&'a T>)
        ensures
            old(self)@.len() == 0 ==> r is None && final(self)@ == old(self)@,
            old(self)@.len() > 0 ==> (match r {
                Some(v) => *v == old(self)@[0],
                None => false,
            }) && final(self)@ == old(self)@.drop_first(),
    {
        match self.current {
            None => None,
            Some(node) => {
                self.current = &node.next;
                proof {
                    assert(final(self)@ =~= old(self)@.drop_first());
                }
                Some(&node.data)
            },
        }
    }
}

/// Law: a push at the back grows the list by exactly the pushed element;
/// popping at the back then returns that element and restores the list
/// (last in, first out), while the front element and the order of the rest
/// are untouched, so popping at the front returns elements first in, first
/// out. Stated over the sequence views that the contracts of `push_back`,
/// `push_front`, `pop_back` and `pop_front` use.
pub proof fn lemma_push_pop_order<T>(s: Seq<T>, v: T)
    ensures
        s.push(v).len() == s.len() + 1,
        s.push(v).last() == v,
        s.push(v).drop_last() == s,
        (seq![v] + s).len() == s.len() + 1,
        (seq![v] + s)[0] == v,
        (seq![v] + s).drop_first() == s,
        s.len() > 0 ==> s.push(v)[0] == s[0],
        s.len() > 0 ==> s.push(v).drop_first() == s.drop_first().push(v),
{
    assert(s.push(v).drop_last() =~= s);
    assert((seq![v] + s).drop_first() =~= s);
    if s.len() > 0 {
        assert(s.push(v).drop_first() =~= s.drop_first().push(v));
    }
}

/// Law: the position of the first match is the smallest matching position,
/// and once the matched element is removed, no earlier position matches,
/// so a repeated search cannot find the old, now stale, index again.
pub proof fn lemma_first_match_fresh<T: PartialEq>(s: Seq<T>, v: T, i: int)
    requires
        0 <= i < s.len(),
        s[i].eq_spec(&v),
        forall|j: int| 0 <= j < i ==> !(#[trigger] s[j].eq_spec(&v)),
    ensures
        forall|j: int| 0 <= j < i ==> !(#[trigger] s.remove(i)[j].eq_spec(&v)),
{
    assert forall|j: int| 0 <= j < i implies !(#[trigger] s.remove(i)[j].eq_spec(&v)) by {
        assert(s.remove(i)[j] == s[j]);
    }
}

/// Law: inserting at position 0 puts the value in front of every element,
/// as `push_front` does; inserting at the length puts it after every
/// element, as `push_back` does — and `insert_position` clamps any larger
/// index to the length; inserting strictly inside grows the length by one,
/// makes the value the element at the chosen position, keeps every earlier
/// element in place and shifts the rest up by one.
pub proof fn lemma_insert_at_ends<T>(s: Seq<T>, index: int, v: T)
    requires
        0 <= index <= s.len(),
    ensures
        s.insert(0, v) == seq![v] + s,
        s.insert(s.len() as int, v) == s.push(v),
        index >= s.len() ==> LinkedList::<T>::insert_position(index, s.len() as int)
            == s.len() as int,
        s.insert(index, v).len() == s.len() + 1,
        s.insert(index, v)[index] == v,
        forall|j: int| 0 <= j < index ==> #[trigger] s.insert(index, v)[j] == s[j],
        forall|j: int| index <= j < s.len() ==> #[trigger] s.insert(index, v)[j + 1] == s[j],
{
    assert(s.insert(0, v) =~= seq![v] + s);
    assert(s.insert(s.len() as int, v) =~= s.push(v));
}

/// Law: splitting after the element at `index` yields two halves whose
/// lengths sum to the whole list's length and whose concatenation, first
/// half then second, is the whole list in its original order.
pub proof fn lemma_split_merge_round_trip<T>(s: Seq<T>, index: int)
    requires
        0 <= index < s.len(),
    ensures
        s.subrange(0, index + 1).len() + s.subrange(index + 1, s.len() as int).len() == s.len(),
        s.subrange(0, index + 1) + s.subrange(index + 1, s.len() as int) == s,
{
    assert(s.subrange(0, index + 1) + s.subrange(index + 1, s.len() as int) =~= s);
}

/// Law: appending is associative; the empty list is an identity on either
/// side; and an append keeps the order of both operands, the left one's
/// elements first.
pub proof fn lemma_merge_laws<T>(a: Seq<T>, b: Seq<T>, c: Seq<T>)
    ensures
        (a + b) + c == a + (b + c),
        a + Seq::<T>::empty() == a,
        Seq::<T>::empty() + b == b,
        (a + b).len() == a.len() + b.len(),
        forall|j: int| 0 <= j < a.len() ==> #[trigger] (a + b)[j] == a[j],
        forall|j: int| 0 <= j < b.len() ==> #[trigger] (a + b)[a.len() + j] == b[j],
{
    assert((a + b) + c =~= a + (b + c));
    assert(a + Seq::<T>::empty() =~= a);
    assert(Seq::<T>::empty() + b =~= b);
}

} // verus!
