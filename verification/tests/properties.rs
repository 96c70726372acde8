//! Scenario tests for the behavioural properties the four list modules share:
//! push/pop ordering, first-match search, insertion equivalences, the
//! split/merge round trip, merge identities, and structural sharing.

use std::rc::Rc;

use list::linked_list_1::LinkedList as ListA;
use list::linked_list_2::{IndexOutOfBounds, LinkedList as ListB};
use list::linked_list_3::{LinkedList as ListC, Node as NodeC};
use list::linked_list_cell::{LinkedListCell, Node as NodeCell};

#[test]
fn length_counts_pushes_and_pops_drain_in_order() {
    let mut list = ListB::new();
    for i in 0..5 {
        list.push_back(i);
        assert_eq!(list.len(), (i + 1) as usize);
    }

    // Back pops return the elements last in, first out.
    assert_eq!(list.pop_back(), Some(4));
    assert_eq!(list.pop_back(), Some(3));

    // Front pops return the elements first in, first out.
    assert_eq!(list.pop_front(), Some(0));
    assert_eq!(list.pop_front(), Some(1));
    assert_eq!(list.pop_front(), Some(2));

    // A drained list stays drained on either end.
    assert_eq!(list.pop_back(), None);
    assert_eq!(list.pop_front(), None);
    assert_eq!(list.pop_back(), None);
    assert_eq!(list.len(), 0);
}

#[test]
fn find_returns_smallest_matching_index() {
    let mut list = ListA::new();
    list.push_back(2);
    list.push_back(7);
    list.push_back(2);
    // Both positions 0 and 2 hold a 2; the smaller one wins.
    assert_eq!(list.find(2), Some(0));

    let mut list = ListB::new();
    list.push_back(2);
    list.push_back(7);
    list.push_back(2);
    assert_eq!(list.first_index_of(2), Some(0));

    // Removing the only match leaves no stale index behind.
    let mut list = ListB::new();
    list.push_back(1);
    list.push_back(9);
    assert_eq!(list.first_index_of(9), Some(1));
    assert_eq!(list.pop_back(), Some(9));
    assert_eq!(list.first_index_of(9), None);
}

#[test]
fn insert_at_zero_matches_push_front() {
    let mut inserted = ListB::new();
    inserted.push_back(2);
    inserted.push_back(3);
    inserted.insert_at(0, 1);

    let mut pushed = ListB::new();
    pushed.push_back(2);
    pushed.push_back(3);
    pushed.push_front(1);

    assert_eq!(inserted.len(), pushed.len());
    for _ in 0..3 {
        assert_eq!(inserted.pop_front(), pushed.pop_front());
    }
}

#[test]
fn insert_at_past_end_matches_push_back() {
    let mut inserted = ListB::new();
    inserted.push_back(1);
    inserted.push_back(2);
    inserted.insert_at(100, 3);

    let mut pushed = ListB::new();
    pushed.push_back(1);
    pushed.push_back(2);
    pushed.push_back(3);

    assert_eq!(inserted.len(), pushed.len());
    for _ in 0..3 {
        assert_eq!(inserted.pop_front(), pushed.pop_front());
    }
}

#[test]
fn insert_in_the_middle_shifts_the_suffix() {
    let mut list = ListB::new();
    list.push_back(10);
    list.push_back(30);
    list.push_back(40);
    list.insert_at(1, 20);
    assert_eq!(list.len(), 4);
    assert_eq!(list.first_index_of(20), Some(1));
    assert_eq!(list.pop_front(), Some(10));
    assert_eq!(list.pop_front(), Some(20));
    assert_eq!(list.pop_front(), Some(30));
    assert_eq!(list.pop_front(), Some(40));
}

#[test]
fn split_then_merge_reconstructs_the_list() {
    // The worked example: [1, 2, 3, 4] split after position 2.
    let mut list = ListB::new();
    list.push_back(1);
    list.push_back(2);
    list.push_back(3);
    list.push_back(4);

    let (mut first, second) = list.split_at(2).unwrap();
    assert_eq!(first.len(), 3);
    assert_eq!(second.len(), 1);

    first.merge(second);
    assert_eq!(first.len(), 4);
    for expected in 1..=4 {
        assert_eq!(first.pop_front(), Some(expected));
    }
}

#[test]
fn split_at_out_of_bounds_is_signalled() {
    let mut list = ListB::new();
    list.push_back(1);
    assert!(matches!(list.split_at(1), Err(IndexOutOfBounds)));

    let empty: ListB<i32> = ListB::new();
    assert!(matches!(empty.split_at(0), Err(IndexOutOfBounds)));
}

#[test]
fn split_at_last_index_leaves_second_empty() {
    let mut list = ListB::new();
    list.push_back(7);
    let (mut first, mut second) = list.split_at(0).unwrap();
    assert_eq!(first.len(), 1);
    assert_eq!(second.len(), 0);
    assert_eq!(first.pop_front(), Some(7));
    assert_eq!(second.pop_front(), None);
}

#[test]
fn merge_is_associative_and_empty_is_identity() {
    let build = |values: &[i32]| {
        let mut l = ListB::new();
        for v in values {
            l.push_back(*v);
        }
        l
    };
    let drain = |mut l: ListB<i32>| {
        let mut out = Vec::new();
        while let Some(v) = l.pop_front() {
            out.push(v);
        }
        out
    };

    // (a + b) + c
    let mut left = build(&[1, 2]);
    left.merge(build(&[3]));
    left.merge(build(&[4, 5]));

    // a + (b + c)
    let mut bc = build(&[3]);
    bc.merge(build(&[4, 5]));
    let mut right = build(&[1, 2]);
    right.merge(bc);

    assert_eq!(drain(left), vec![1, 2, 3, 4, 5]);
    assert_eq!(drain(right), vec![1, 2, 3, 4, 5]);

    // Merging an empty list is a no-op; merging into one adopts the other.
    let mut list = build(&[1, 2]);
    list.merge(ListB::new());
    assert_eq!(drain(list), vec![1, 2]);

    let mut list = ListB::new();
    list.merge(build(&[1, 2]));
    assert_eq!(drain(list), vec![1, 2]);
}

#[test]
fn repeated_tails_replay_pushes_in_reverse() {
    let list = ListC::default().push_front(1).push_front(2).push_front(3);
    // Heads come back in reverse construction order: 3, 2, 1.
    assert_eq!(list.peek(), Some(&3));
    let list = list.tail();
    assert_eq!(list.peek(), Some(&2));
    let list = list.tail();
    assert_eq!(list.peek(), Some(&1));
    let list = list.tail();
    assert!(list.is_empty());
}

#[test]
fn derived_lists_have_independent_heads_over_a_shared_tail() {
    let base = ListC::default().push_front(1);
    let left = base.push_front(10);
    let right = base.push_front(20);

    // Neither derived list sees the other's pushed element.
    let mut iter = left.iter();
    assert_eq!(iter.next(), Some(&10));
    assert_eq!(iter.next(), Some(&1));
    assert_eq!(iter.next(), None);

    let mut iter = right.iter();
    assert_eq!(iter.next(), Some(&20));
    assert_eq!(iter.next(), Some(&1));
    assert_eq!(iter.next(), None);

    // The base list itself is untouched.
    assert_eq!(base.peek(), Some(&1));
    assert!(base.tail().is_empty());
}

#[test]
fn list_from_a_node_holds_that_element() {
    let list = ListC::new(Some(Rc::new(NodeC::new(42))));
    assert_eq!(list.peek(), Some(&42));
    assert!(list.tail().is_empty());

    let empty: ListC<i32> = ListC::new(None);
    assert!(empty.is_empty());
}

#[test]
fn get_mut_writes_an_element_in_place() {
    let mut list = ListB::new();
    list.push_back(1);
    list.push_back(2);
    list.push_back(3);

    *list.get_mut(1) = 4;

    let mut iter = list.iter();
    assert_eq!(iter.next(), Some(&1));
    assert_eq!(iter.next(), Some(&4));
    assert_eq!(iter.next(), Some(&3));
    assert_eq!(iter.next(), None);
    assert_eq!(list.len(), 3);
}

#[test]
fn iterators_are_restartable() {
    let mut list = ListB::new();
    list.push_back(1);
    list.push_back(2);
    let mut iter = list.iter();
    assert_eq!(iter.next(), Some(&1));
    let mut again = list.iter();
    assert_eq!(again.next(), Some(&1));
    assert_eq!(again.next(), Some(&2));
    assert_eq!(again.next(), None);

    let list = ListC::default().push_front(9);
    let mut iter = list.iter();
    assert_eq!(iter.next(), Some(&9));
    assert_eq!(iter.next(), None);
    let mut again = list.iter();
    assert_eq!(again.next(), Some(&9));
}

#[test]
fn recursive_list_example_pop_back_sequence() {
    // The worked example: push 1 and 2, then drain from the back.
    let mut list = ListA::new();
    list.push_back(1);
    list.push_back(2);
    assert_eq!(list.pop_back(), Some(2));
    assert_eq!(list.len(), 1);
    assert_eq!(list.pop_back(), Some(1));
    assert_eq!(list.len(), 0);
    assert_eq!(list.pop_back(), None);
}

#[test]
fn recursive_list_val_reads_the_head() {
    let mut list = ListA::new();
    assert_eq!(list.val(), None);
    list.push_back(5);
    list.push_back(6);
    assert_eq!(list.val(), Some(5));

    let mut iter = list.iter();
    assert_eq!(iter.next(), Some(5));
    assert_eq!(iter.next(), Some(6));
    assert_eq!(iter.next(), None);
}

#[test]
fn cell_nodes_push_and_pop_at_the_far_end() {
    let mut node = NodeCell::new(1);
    node.push_back(2);
    node.push_back(3);
    // The chain behind the node is [1, 2, 3]; pops detach the last element.
    assert_eq!(node.pop_back(), 3);
    assert_eq!(node.pop_back(), 2);

    let chain = NodeCell::new_boxed(7);
    assert!(chain.is_some());

    let mut list = LinkedListCell::new(1);
    list.push_back(2);
    assert!(!list.is_empty());
}
