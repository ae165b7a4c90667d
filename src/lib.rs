//! Values kept in an arena of slots and named by one- or two-byte ids instead
//! of full-width pointers: a raw handle, an owning box, and a reference-counted
//! shared pointer with its weak companion.
pub mod boxed;
pub mod memory;
pub mod sync;

pub use boxed::TinyBox;
pub use memory::{Memory, MemoryError, TinyPtr, ONE_BYTE_MAX_SLOTS, TWO_BYTE_MAX_SLOTS};
pub use sync::{ArcMemory, RefCounted, TinyArc, TinyWeak};
