//! The token that marks the calls during which a collection may run.

use vstd::prelude::*;

verus! {

/// The capability to run a garbage collection. A function that takes one may
/// allocate, and a collection may follow at the next safepoint: whoever holds
/// a reference to a payload gives it up before handing the scope on, and looks
/// the payload up again by its handle afterwards.
pub struct GcScope {}

impl GcScope {
    /// The scope of an engine that stands at a safepoint.
    pub fn new() -> GcScope {
        GcScope {  }
    }

    /// A scope to hand to a callee, while the caller keeps its own.
    pub fn reborrow(&mut self) -> GcScope {
        GcScope {  }
    }
}

} // verus!
