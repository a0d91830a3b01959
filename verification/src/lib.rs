//! Contiguous, ordered, growable sequences over interchangeable backings.
//!
//! Three capability layers are stacked on one another: [`SliceOwner`] owns a
//! run of live elements, [`Vec`] adds the primitives that change its length,
//! and [`VecUnsized`] adds the algorithms that move whole ranges. [`StackVec`]
//! is the backing whose storage is an inline array of fixed capacity; the
//! standard heap vector takes part through the same traits.
//!
//! Every operation states what it needs as a precondition and what it leaves
//! behind as a postcondition over the sequence of live elements. No
//! operation panics when its precondition holds.
pub mod laws;
pub mod model;
pub mod stack_vec;
pub mod traits;

pub use stack_vec::{IntoIter, StackVec};
pub use traits::slice_owner::SliceOwner;
pub use traits::vec::drain::Drain;
pub use traits::vec::{slice_range, IndexBound, Vec, VecUnsized};
