//! The execution context that owns the heap.

use vstd::prelude::*;
use crate::ecmascript::embedder_object::{EmbedderObject, EmbedderObjectHeapData};
use crate::ecmascript::ordinary::{ObjectHeapData, OrdinaryObject};
use crate::ecmascript::types::Object;
use crate::heap::compaction::CompactionLists;
use crate::heap::gc::{collected, forwarding, heap_gc};
use crate::heap::model::HeapModel;
use crate::heap::Heap;

verus! {

/// The execution context: it owns the heap, and every payload is reached
/// through it, by handle.
#[derive(Debug)]
pub struct Agent {
    pub heap: Heap,
}

impl View for Agent {
    type V = HeapModel;

    open spec fn view(&self) -> HeapModel {
        self.heap@
    }
}

impl Agent {
    /// The allocations since the last collection and the threshold: what
    /// the agent holds beside the objects.
    pub open spec fn counters(&self) -> (usize, usize) {
        (self.heap.allocations, self.heap.threshold)
    }

    /// The count and the threshold after one more allocation: the count
    /// goes up by one, and stays where it cannot.
    pub open spec fn counters_after_allocation(&self) -> (usize, usize) {
        (
            if self.heap.allocations < usize::MAX {
                (self.heap.allocations + 1) as usize
            } else {
                self.heap.allocations
            },
            self.heap.threshold,
        )
    }

    /// An agent without objects, in which a collection is due once
    /// `threshold` payloads have been allocated.
    pub fn new(threshold: usize) -> (agent: Agent)
        ensures
            agent@.objects.len() == 0,
            agent@.embedder_objects.len() == 0,
            agent@.wf(),
            agent@.acyclic(),
            agent.counters() == (0usize, threshold),
    {
        Agent { heap: Heap::new(threshold) }
    }

    /// Resolves a handle to the payload of its embedder object.
    pub fn index(&self, index: EmbedderObject) -> (data: &EmbedderObjectHeapData)
        requires
            self@.occupied(Object::EmbedderObject(index)),
        ensures
            *data == self@.embedder_object(index),
    {
        self.heap.embedder_object(index)
    }

    /// Resolves a handle to the payload of its embedder object, to change it
    /// in place. Whoever changes it answers for the order of the heap.
    pub fn index_mut(&mut self, index: EmbedderObject) -> (data: &mut EmbedderObjectHeapData)
        requires
            old(self)@.occupied(Object::EmbedderObject(index)),
        ensures
            *data == old(self)@.embedder_object(index),
            final(self)@ == old(self)@.update_embedder_object(index, *final(data)),
            final(self).heap.objects == old(self).heap.objects,
            final(self).counters() == old(self).counters(),
    {
        self.heap.embedder_object_mut(index)
    }

    /// Resolves a handle to the payload of its ordinary object.
    pub fn object(&self, index: OrdinaryObject) -> (data: &ObjectHeapData)
        requires
            self@.occupied(Object::Object(index)),
        ensures
            data@ == self@.object(index),
    {
        self.heap.object(index)
    }

    /// Resolves a handle to the payload of its ordinary object, to change it
    /// in place. Whoever changes it answers for the order of the heap.
    pub fn object_mut(&mut self, index: OrdinaryObject) -> (data: &mut ObjectHeapData)
        requires
            old(self)@.occupied(Object::Object(index)),
        ensures
            data@ == old(self)@.object(index),
            final(self)@ == old(self)@.update_object(index, final(data)@),
            final(self).heap.embedder_objects == old(self).heap.embedder_objects,
            final(self).counters() == old(self).counters(),
    {
        self.heap.object_mut(index)
    }

    /// Runs a collection now. See `heap_gc`.
    pub fn gc(&mut self, roots: &mut Vec<Object>) -> (compactions: CompactionLists)
        requires
            old(self)@.wf(),
            old(self)@.holds_all(old(roots)@),
        ensures
            compactions@ == forwarding(old(self)@, old(roots)@),
            final(self)@ == collected(old(self)@, old(roots)@),
            final(roots)@ == compactions@.shift_all(old(roots)@),
            final(self)@.wf(),
            final(self)@.holds_all(final(roots)@),
            old(self)@.acyclic() ==> final(self)@.acyclic(),
            final(self).counters() == (0usize, old(self).heap.threshold),
    {
        heap_gc(&mut self.heap, roots)
    }
}

} // verus!
