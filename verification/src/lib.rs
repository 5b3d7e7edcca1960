//! An array-backed binary max-heap: constant-time access to the maximum,
//! logarithmic insertion and removal of the maximum, and linear-time bulk
//! construction, with the heap ordering proved to hold after every operation.

mod max_heap;

pub use max_heap::MaxHeap;
pub use max_heap::heap_ordered_from;
pub use max_heap::is_max_heap;
pub use max_heap::parent_of;
pub use max_heap::lemma_bulk_max;
pub use max_heap::lemma_children_bounded;
pub use max_heap::lemma_extract_monotonic;
pub use max_heap::lemma_root_is_max;
