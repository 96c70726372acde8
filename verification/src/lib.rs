//! Singly-linked lists under four ownership disciplines.
//!
//! Each module is a self-contained list data structure, verified against a
//! sequence model of its contents:
//! - [`linked_list_1`]: a recursive sum type holding `usize` elements, where
//!   the list and the node are the same value and each list owns its tail.
//! - [`linked_list_2`]: a generic chain of exclusively owned boxed nodes,
//!   with the richest operation set (search, insertion, split, merge).
//! - [`linked_list_3`]: a persistent list of reference-counted immutable
//!   nodes; operations return new lists that share their suffix.
//! - [`linked_list_cell`]: a list whose node methods push and pop at the far
//!   end of the chain by recursive delegation.

pub mod linked_list_1;
pub mod linked_list_2;
pub mod linked_list_3;
pub mod linked_list_cell;
