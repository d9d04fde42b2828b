//! Interning of values: every distinct value is stored once, and every request for an equal
//! value hands out a handle to that single stored copy.

mod interned;
mod interner;
pub mod laws;
pub mod order;
mod outside;
mod registry;
mod std_calls;
mod weak_map;

pub use interned::{Intern, Interned, Weak};
pub use interner::{InternRef, Slot, TypedInterner};
pub use registry::{Interner, InternerRegistry};
pub use weak_map::WeakMapExt;
