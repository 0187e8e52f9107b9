pub mod fns;
pub mod refs;
