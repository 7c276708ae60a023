pub mod allocator;
pub mod bits;
pub mod bitvec;
pub mod grc;
pub mod gvec;
pub mod hash;
pub mod heap;
pub mod heap_order;
pub mod hex;
pub mod logger;
pub mod others;
pub mod statistic;
pub mod submodule;

pub use others::OptionU32;
