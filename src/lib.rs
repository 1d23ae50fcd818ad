//! Nested fixed-size arrays built on the heap from a type-level shape.
//!
//! A shape is a type: `Value` is a single slot, and `Array<L, N>` is `N` rows
//! of shape `L`, outermost dimension first. `coord` holds the arithmetic of
//! slots and coordinates, `heap` a flat block filled by value or by
//! coordinate, and `nested` the nested array types that conform to a shape.

pub mod coord;
pub mod heap;
pub mod nested;
pub mod shape;

pub use heap::HeapArray;
pub use nested::{boxarray, Arrays};
pub use shape::{Array, CUList, Reify, Value};
