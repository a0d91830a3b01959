pub mod slice_owner;
pub mod vec;
