//! A verified alternative to run-time bounds-checking aborts.
//!
//! Every operation that could go out of bounds carries its bounds condition
//! as a `requires` clause, so a violating call site is rejected when the
//! program is verified instead of failing when it runs. The bounds policies
//! themselves are stated as spec functions, and a checked wrapper over a
//! contiguous sequence applies them to indexing and slicing operations.

pub mod dp;
pub mod dp_slice;

pub use dp::dp_assert;
pub use dp::run_guarded;
pub use dp_slice::DPSlice;
