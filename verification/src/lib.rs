//! Verified in-place sorting algorithms (selection, insertion, bubble, merge,
//! heap and quicksort) over `i32` sequences, a max-heap abstraction used by
//! heap sort, and a benchmarking harness that times every algorithm over a
//! sweep of input sizes and averages the measured durations.

pub mod order;
pub mod sorts;
pub mod heap;
pub mod bench;
