//! Core metadata structures of a multi-threaded, generational, moving
//! garbage collector: side-table bitmaps indexed by heap address, the
//! bit-packed per-object header, and the safepoint protocol that stops
//! every mutator at a well-defined point before a collection inspects
//! the heap.

pub mod api;
pub mod bitmap;
pub mod bits;
pub mod heap_bitmap;
pub mod object_start;
pub mod safepoint;
pub mod utils;
