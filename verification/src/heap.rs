//! The heap: one arena of payload slots for each kind of object, allocation
//! into the arenas, and resolution of handles.

use vstd::prelude::*;
use crate::ecmascript::chain::{lemma_with_embedder_object_acyclic, lemma_with_object_acyclic};
use crate::ecmascript::embedder_object::{EmbedderObject, EmbedderObjectHeapData};
use crate::ecmascript::ordinary::{ObjectData, ObjectHeapData, OrdinaryObject};
use crate::ecmascript::types::Object;
use crate::heap::indexes::BaseIndex;
use crate::heap::model::HeapModel;

pub mod compaction;
pub mod gc;
pub mod indexes;
pub mod mark;
pub mod model;
pub mod sweep;

verus! {

/// The store of every object: one arena for each kind, and the count by
/// which the engine decides when to collect.
#[derive(Debug)]
pub struct Heap {
    pub objects: Vec<Option<ObjectHeapData>>,
    pub embedder_objects: Vec<Option<EmbedderObjectHeapData>>,
    /// How many payloads were allocated since the last collection.
    pub allocations: usize,
    /// The number of allocations from which on a collection is due.
    pub threshold: usize,
}

/// What a slot of ordinary objects holds.
pub open spec fn slot_view(slot: Option<ObjectHeapData>) -> Option<ObjectData> {
    match slot {
        Some(data) => Some(data@),
        None => None,
    }
}

impl View for Heap {
    type V = HeapModel;

    open spec fn view(&self) -> HeapModel {
        HeapModel {
            objects: self.objects@.map_values(|slot: Option<ObjectHeapData>| slot_view(slot)),
            embedder_objects: self.embedder_objects@,
        }
    }
}

/// The payload in the slot that `index` names.
pub fn index_object(slots: &Vec<Option<ObjectHeapData>>, index: OrdinaryObject) -> (data:
    &ObjectHeapData)
    requires
        0 <= index.0.index() < slots@.len(),
        slots@[index.0.index()] is Some,
    ensures
        slots@[index.0.index()] == Some(*data),
{
    match &slots[index.get_index()] {
        Some(data) => data,
        None => unreached(),
    }
}

/// The payload in the slot that `index` names, to change it in place.
pub fn index_object_mut(slots: &mut Vec<Option<ObjectHeapData>>, index: OrdinaryObject) -> (data:
    &mut ObjectHeapData)
    requires
        0 <= index.0.index() < old(slots)@.len(),
        old(slots)@[index.0.index()] is Some,
    ensures
        old(slots)@[index.0.index()] == Some(*data),
        final(slots)@ == old(slots)@.update(index.0.index(), Some(*final(data))),
{
    match &mut slots[index.get_index()] {
        Some(data) => data,
        None => unreached(),
    }
}

/// The payload in the slot that `index` names.
pub fn index_embedder_object(
    slots: &Vec<Option<EmbedderObjectHeapData>>,
    index: EmbedderObject,
) -> (data: &EmbedderObjectHeapData)
    requires
        0 <= index.0.index() < slots@.len(),
        slots@[index.0.index()] is Some,
    ensures
        slots@[index.0.index()] == Some(*data),
{
    match &slots[index.get_index()] {
        Some(data) => data,
        None => unreached(),
    }
}

/// The payload in the slot that `index` names, to change it in place.
pub fn index_embedder_object_mut(
    slots: &mut Vec<Option<EmbedderObjectHeapData>>,
    index: EmbedderObject,
) -> (data: &mut EmbedderObjectHeapData)
    requires
        0 <= index.0.index() < old(slots)@.len(),
        old(slots)@[index.0.index()] is Some,
    ensures
        old(slots)@[index.0.index()] == Some(*data),
        final(slots)@ == old(slots)@.update(index.0.index(), Some(*final(data))),
{
    match &mut slots[index.get_index()] {
        Some(data) => data,
        None => unreached(),
    }
}

/// The view of the slots follows a change of one slot.
pub proof fn lemma_slot_view_update(slots: Seq<Option<ObjectHeapData>>, i: int, data: ObjectHeapData)
    requires
        0 <= i < slots.len(),
    ensures
        slots.update(i, Some(data)).map_values(|slot: Option<ObjectHeapData>| slot_view(slot))
            == slots.map_values(|slot: Option<ObjectHeapData>| slot_view(slot)).update(
            i,
            Some(data@),
        ),
{
    assert(slots.update(i, Some(data)).map_values(|slot: Option<ObjectHeapData>| slot_view(slot))
        =~= slots.map_values(|slot: Option<ObjectHeapData>| slot_view(slot)).update(
        i,
        Some(data@),
    ));
}

/// A new payload whose handles resolve leaves the heap in order.
pub proof fn lemma_with_object_wf(heap: HeapModel, data: ObjectData)
    requires
        heap.wf(),
        heap.objects.len() < u32::MAX,
        data.wf(),
        heap.holds_all(data.refs()),
    ensures
        heap.with_object(data).wf(),
{
    let after = heap.with_object(data);
    assert forall|a: Object, b: Object| #[trigger] after.points_to(a, b) implies after.occupied(
        b,
    ) by {
        if heap.occupied(a) {
            assert(after.refs(a) == heap.refs(a));
            assert(heap.points_to(a, b));
        } else {
            assert(after.refs(a) == data.refs());
            let i = choose|i: int| 0 <= i < data.refs().len() && data.refs()[i] == b;
            assert(heap.occupied(data.refs()[i]));
        }
    }
}

/// A new payload whose handles resolve leaves the heap in order.
pub proof fn lemma_with_embedder_object_wf(heap: HeapModel, data: EmbedderObjectHeapData)
    requires
        heap.wf(),
        heap.embedder_objects.len() < u32::MAX,
        heap.holds_all(data.refs()),
    ensures
        heap.with_embedder_object(data).wf(),
{
    let after = heap.with_embedder_object(data);
    assert forall|a: Object, b: Object| #[trigger] after.points_to(a, b) implies after.occupied(
        b,
    ) by {
        if heap.occupied(a) {
            assert(after.refs(a) == heap.refs(a));
            assert(heap.points_to(a, b));
        } else {
            assert(after.refs(a) == data.refs());
            let i = choose|i: int| 0 <= i < data.refs().len() && data.refs()[i] == b;
            assert(heap.occupied(data.refs()[i]));
        }
    }
}

/// Until a collection runs a handle names what it named: after an
/// allocation of an ordinary object every handle that resolved resolves to
/// the payload that it resolved to, and the new handle resolves to the new
/// payload.
pub proof fn lemma_handles_stable_with_object(heap: HeapModel, data: ObjectData, o: Object)
    requires
        heap.occupied(o),
    ensures
        heap.with_object(data).occupied(o),
        match o {
            Object::Object(h) => heap.with_object(data).object(h) == heap.object(h),
            Object::EmbedderObject(e) => heap.with_object(data).embedder_object(e)
                == heap.embedder_object(e),
        },
        heap.with_object(data).objects[heap.objects.len() as int] == Some(data),
{
}

/// Until a collection runs a handle names what it named: after an
/// allocation of an embedder object every handle that resolved resolves to
/// the payload that it resolved to, and the new handle resolves to the new
/// payload.
pub proof fn lemma_handles_stable_with_embedder_object(
    heap: HeapModel,
    data: EmbedderObjectHeapData,
    o: Object,
)
    requires
        heap.occupied(o),
    ensures
        heap.with_embedder_object(data).occupied(o),
        match o {
            Object::Object(h) => heap.with_embedder_object(data).object(h) == heap.object(h),
            Object::EmbedderObject(e) => heap.with_embedder_object(data).embedder_object(e)
                == heap.embedder_object(e),
        },
        heap.with_embedder_object(data).embedder_objects[heap.embedder_objects.len() as int]
            == Some(data),
{
}

impl Heap {
    /// A heap without objects, in which a collection is due once `threshold`
    /// payloads have been allocated.
    pub fn new(threshold: usize) -> (heap: Heap)
        ensures
            heap@.objects.len() == 0,
            heap@.embedder_objects.len() == 0,
            heap@.wf(),
            heap@.acyclic(),
            heap.allocations == 0,
            heap.threshold == threshold,
    {
        let heap = Heap {
            objects: Vec::new(),
            embedder_objects: Vec::new(),
            allocations: 0,
            threshold,
        };
        proof {
            assert forall|o: Object| #[trigger] heap@.finite_chain(o) by {
                assert(heap@.ancestor(o, 1) is None);
            }
        }
        heap
    }

    /// Puts the payload of an ordinary object into a new last slot of its
    /// arena and returns the handle of that slot. Nothing else moves, and no
    /// collection runs.
    pub fn allocate_object(&mut self, data: ObjectHeapData) -> (handle: OrdinaryObject)
        requires
            old(self).objects@.len() < u32::MAX,
        ensures
            handle.0.index() == old(self)@.objects.len(),
            final(self)@ == old(self)@.with_object(data@),
            final(self).objects@ == old(self).objects@.push(Some(data)),
            final(self).threshold == old(self).threshold,
            final(self).allocations == if old(self).allocations < usize::MAX {
                old(self).allocations + 1
            } else {
                usize::MAX as int
            },
            old(self)@.wf() && data@.wf() && old(self)@.holds_all(data@.refs())
                ==> final(self)@.wf(),
            old(self)@.wf() && old(self)@.acyclic() && old(self)@.holds_all(data@.refs())
                ==> final(self)@.acyclic(),
    {
        proof {
            if self@.wf() && data@.wf() && self@.holds_all(data@.refs()) {
                lemma_with_object_wf(self@, data@);
            }
            if self@.wf() && self@.acyclic() && self@.holds_all(data@.refs()) {
                lemma_with_object_acyclic(self@, data@);
            }
        }
        let index = self.objects.len();
        self.objects.push(Some(data));
        if self.allocations < usize::MAX {
            self.allocations = self.allocations + 1;
        }
        assert(self@.objects =~= old(self)@.with_object(data@).objects);
        OrdinaryObject(BaseIndex::from_index(index))
    }

    /// Puts the payload of an embedder object into a new last slot of its
    /// arena and returns the handle of that slot. Nothing else moves, and no
    /// collection runs.
    pub fn allocate_embedder_object(&mut self, data: EmbedderObjectHeapData) -> (handle:
        EmbedderObject)
        requires
            old(self).embedder_objects@.len() < u32::MAX,
        ensures
            handle.0.index() == old(self)@.embedder_objects.len(),
            final(self)@ == old(self)@.with_embedder_object(data),
            final(self).objects@ == old(self).objects@,
            final(self).threshold == old(self).threshold,
            final(self).allocations == if old(self).allocations < usize::MAX {
                old(self).allocations + 1
            } else {
                usize::MAX as int
            },
            old(self)@.wf() && old(self)@.holds_all(data.refs()) ==> final(self)@.wf(),
            old(self)@.wf() && old(self)@.acyclic() && old(self)@.holds_all(data.refs())
                ==> final(self)@.acyclic(),
    {
        proof {
            if self@.wf() && self@.holds_all(data.refs()) {
                lemma_with_embedder_object_wf(self@, data);
            }
            if self@.wf() && self@.acyclic() && self@.holds_all(data.refs()) {
                lemma_with_embedder_object_acyclic(self@, data);
            }
        }
        let index = self.embedder_objects.len();
        self.embedder_objects.push(Some(data));
        if self.allocations < usize::MAX {
            self.allocations = self.allocations + 1;
        }
        EmbedderObject(BaseIndex::from_index(index))
    }

    /// Resolves a handle to the payload of its ordinary object.
    pub fn object(&self, handle: OrdinaryObject) -> (data: &ObjectHeapData)
        requires
            self@.occupied(Object::Object(handle)),
        ensures
            self.objects@[handle.0.index()] == Some(*data),
            data@ == self@.object(handle),
    {
        index_object(&self.objects, handle)
    }

    /// Resolves a handle to the payload of its ordinary object, to change it
    /// in place. Whoever changes it answers for the order of the heap.
    pub fn object_mut(&mut self, handle: OrdinaryObject) -> (data: &mut ObjectHeapData)
        requires
            old(self)@.occupied(Object::Object(handle)),
        ensures
            old(self).objects@[handle.0.index()] == Some(*data),
            data@ == old(self)@.object(handle),
            final(self).objects@ == old(self).objects@.update(
                handle.0.index(),
                Some(*final(data)),
            ),
            final(self)@ == old(self)@.update_object(handle, final(data)@),
            final(self).embedder_objects == old(self).embedder_objects,
            final(self).allocations == old(self).allocations,
            final(self).threshold == old(self).threshold,
    {
        let data = index_object_mut(&mut self.objects, handle);
        proof {
            lemma_slot_view_update(old(self).objects@, handle.0.index(), *final(data));
        }
        data
    }

    /// Resolves a handle to the payload of its embedder object.
    pub fn embedder_object(&self, handle: EmbedderObject) -> (data: &EmbedderObjectHeapData)
        requires
            self@.occupied(Object::EmbedderObject(handle)),
        ensures
            *data == self@.embedder_object(handle),
    {
        index_embedder_object(&self.embedder_objects, handle)
    }

    /// Resolves a handle to the payload of its embedder object, to change it
    /// in place. Whoever changes it answers for the order of the heap.
    pub fn embedder_object_mut(&mut self, handle: EmbedderObject) -> (data:
        &mut EmbedderObjectHeapData)
        requires
            old(self)@.occupied(Object::EmbedderObject(handle)),
        ensures
            *data == old(self)@.embedder_object(handle),
            final(self)@ == old(self)@.update_embedder_object(handle, *final(data)),
            final(self).objects == old(self).objects,
            final(self).allocations == old(self).allocations,
            final(self).threshold == old(self).threshold,
    {
        index_embedder_object_mut(&mut self.embedder_objects, handle)
    }
}

} // verus!
