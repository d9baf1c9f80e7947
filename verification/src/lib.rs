//! A double-ended queue built from two stacks that share one buffer.
//!
//! `AltDeque` stores its elements in a single arena of slots. The *front
//! stack* grows downwards from the high end of the arena and holds the
//! elements nearest the logical front; the *back stack* grows upwards from
//! slot 0 and holds the elements nearest the logical back. Two cursors
//! delimit the stacks: `head` is one past the last live slot of the back
//! stack and `tail` is the first live slot of the front stack, with
//! `0 <= head <= tail <= capacity` as the structural invariant.
//!
//! Popping from an end whose stack is empty triggers a *stack flip*: the
//! other stack's elements are moved across the buffer in one linear pass,
//! after which that end pops in constant time again. Every operation is
//! specified against the deque's logical sequence of elements, and the
//! specifications are machine-checked.

mod bulk;
mod convert;
mod deque;
mod drain;
mod into_iter;
mod laws;
mod ord;
mod raw_vec;
mod search;

pub use bulk::retained;
pub use deque::grown_capacity;
pub use deque::lemma_capacity_bounds;
pub use raw_vec::lemma_slot_count_fits;
pub use deque::AltDeque;
pub use ord::lex_cmp_spec;
pub use raw_vec::amortized_cap;
pub use raw_vec::can_grow_amortized;
pub use raw_vec::can_grow_exact;
pub use raw_vec::fits_in_bytes;
pub use raw_vec::max_int;
pub use raw_vec::min_int;
pub use raw_vec::min_non_zero_cap;
pub use raw_vec::reported_cap;
pub use raw_vec::reserved_cap;
pub use raw_vec::reserved_cap_exact;
pub use laws::lemma_eq_ignores_split;
pub use laws::lemma_insert_remove;
pub use laws::lemma_rotate_round_trip;
pub use drain::Drain;
pub use into_iter::IntoIter;
pub use raw_vec::RawVec;
pub use raw_vec::TryReserveError;
