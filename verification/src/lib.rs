//! A small verified sorting library: four sorting strategies over
//! `Vec<i32>` (bubble sort, merge sort, and two quicksort variants), each
//! proved to return a sorted permutation of its input, together with a
//! singly linked list held in an index-addressed arena whose nodes may be
//! reached through any number of aliased integer handles.
//!
//! A few small verified companions live beside the core: a line-based text
//! filter, a balance counter with a non-negative invariant, and some basic
//! arithmetic helpers.

pub mod bank;
pub mod basics;
pub mod bubble;
pub mod generics;
pub mod grep;
pub mod merge_sort;
pub mod order;
pub mod quick_filter;
pub mod quick_two_pointer;
pub mod shared_list;
