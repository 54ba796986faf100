//! What a heap holds, as sequences of slots, and what it means for a handle
//! to be reachable.

use vstd::prelude::*;
use crate::ecmascript::embedder_object::{EmbedderObject, EmbedderObjectHeapData};
use crate::ecmascript::ordinary::{ObjectData, OrdinaryObject};
use crate::ecmascript::types::Object;

verus! {

/// What a heap holds: for each kind its arena, a run of slots that are
/// occupied by a payload or empty.
pub struct HeapModel {
    pub objects: Seq<Option<ObjectData>>,
    pub embedder_objects: Seq<Option<EmbedderObjectHeapData>>,
}

impl HeapModel {
    /// The handle names an occupied slot: resolving it succeeds.
    pub open spec fn occupied(self, o: Object) -> bool {
        match o {
            Object::Object(h) => 0 <= h.0.index() < self.objects.len()
                && self.objects[h.0.index()] is Some,
            Object::EmbedderObject(e) => 0 <= e.0.index() < self.embedder_objects.len()
                && self.embedder_objects[e.0.index()] is Some,
        }
    }

    /// The payload that a handle to an ordinary object resolves to.
    pub open spec fn object(self, h: OrdinaryObject) -> ObjectData {
        self.objects[h.0.index()]->0
    }

    /// The payload that a handle to an embedder object resolves to.
    pub open spec fn embedder_object(self, e: EmbedderObject) -> EmbedderObjectHeapData {
        self.embedder_objects[e.0.index()]->0
    }

    /// The handles that the payload of `o` holds; none where `o` names no
    /// occupied slot.
    pub open spec fn refs(self, o: Object) -> Seq<Object> {
        if !self.occupied(o) {
            Seq::empty()
        } else {
            match o {
                Object::Object(h) => self.object(h).refs(),
                Object::EmbedderObject(e) => self.embedder_object(e).refs(),
            }
        }
    }

    /// The payload of `a` holds the handle `b`.
    pub open spec fn points_to(self, a: Object, b: Object) -> bool {
        self.refs(a).contains(b)
    }

    /// Every one of the handles names an occupied slot.
    pub open spec fn holds_all(self, handles: Seq<Object>) -> bool {
        forall|i: int| 0 <= i < handles.len() ==> self.occupied(#[trigger] handles[i])
    }

    /// No payload holds a dangling handle.
    pub open spec fn closed(self) -> bool {
        forall|a: Object, b: Object| #[trigger] self.points_to(a, b) ==> self.occupied(b)
    }

    /// The heap is in order: every slot can be named by a handle, no payload
    /// holds a dangling handle, and no object has two properties of one name.
    pub open spec fn wf(self) -> bool {
        &&& self.objects.len() <= u32::MAX
        &&& self.embedder_objects.len() <= u32::MAX
        &&& self.closed()
        &&& forall|i: int|
            0 <= i < self.objects.len() && self.objects[i] is Some ==> (
            #[trigger] self.objects[i])->0.wf()
    }

    /// Each handle of the path is held by the payload of the one before it.
    pub open spec fn is_path(self, path: Seq<Object>) -> bool {
        forall|i: int| 0 <= i < path.len() - 1 ==> self.points_to(#[trigger] path[i], path[i + 1])
    }

    /// `o` is a root, or a chain of payloads leads from a root to it.
    pub open spec fn reachable(self, roots: Seq<Object>, o: Object) -> bool {
        exists|path: Seq<Object>|
            path.len() > 0 && roots.contains(path[0]) && path.last() == o && #[trigger] self.is_path(
                path,
            )
    }

    /// The heap with one more ordinary object, in a new last slot.
    pub open spec fn with_object(self, data: ObjectData) -> HeapModel {
        HeapModel { objects: self.objects.push(Some(data)), ..self }
    }

    /// The heap with one more embedder object, in a new last slot.
    pub open spec fn with_embedder_object(self, data: EmbedderObjectHeapData) -> HeapModel {
        HeapModel { embedder_objects: self.embedder_objects.push(Some(data)), ..self }
    }

    /// The heap with another payload in the slot of `h`.
    pub open spec fn update_object(self, h: OrdinaryObject, data: ObjectData) -> HeapModel {
        HeapModel { objects: self.objects.update(h.0.index(), Some(data)), ..self }
    }

    /// The heap with another payload in the slot of `e`.
    pub open spec fn update_embedder_object(
        self,
        e: EmbedderObject,
        data: EmbedderObjectHeapData,
    ) -> HeapModel {
        HeapModel {
            embedder_objects: self.embedder_objects.update(e.0.index(), Some(data)),
            ..self
        }
    }
}

/// A root is reachable.
pub proof fn lemma_root_reachable(heap: HeapModel, roots: Seq<Object>, root: Object)
    requires
        roots.contains(root),
    ensures
        heap.reachable(roots, root),
{
    let path = seq![root];
    assert(heap.is_path(path));
    assert(path[0] == root && path.last() == root);
}

/// What the payload of a reachable object holds is reachable.
pub proof fn lemma_reachable_step(heap: HeapModel, roots: Seq<Object>, a: Object, b: Object)
    requires
        heap.reachable(roots, a),
        heap.points_to(a, b),
    ensures
        heap.reachable(roots, b),
{
    let path = choose|path: Seq<Object>|
        path.len() > 0 && roots.contains(path[0]) && path.last() == a && #[trigger] heap.is_path(
            path,
        );
    let longer = path.push(b);
    assert forall|i: int| 0 <= i < longer.len() - 1 implies heap.points_to(
        #[trigger] longer[i],
        longer[i + 1],
    ) by {
        if i < path.len() - 1 {
            assert(heap.points_to(path[i], path[i + 1]));
        }
    }
    assert(heap.is_path(longer));
    assert(longer[0] == path[0] && longer.last() == b);
}

/// Every handle of a path from a root lies in a set that holds the roots,
/// and with an object all that its payload holds.
proof fn lemma_path_stays_inside(
    heap: HeapModel,
    roots: Seq<Object>,
    inside: Set<Object>,
    path: Seq<Object>,
    i: int,
)
    requires
        forall|r: Object| roots.contains(r) ==> inside.contains(r),
        forall|a: Object, b: Object|
            inside.contains(a) && #[trigger] heap.points_to(a, b) ==> inside.contains(b),
        path.len() > 0,
        roots.contains(path[0]),
        heap.is_path(path),
        0 <= i < path.len(),
    ensures
        inside.contains(path[i]),
    decreases i,
{
    if i > 0 {
        lemma_path_stays_inside(heap, roots, inside, path, i - 1);
        assert(heap.points_to(path[i - 1], path[i - 1 + 1]));
    }
}

/// A set that holds the roots, and with an object all that its payload
/// holds, holds every reachable object.
pub proof fn lemma_reachable_inside(
    heap: HeapModel,
    roots: Seq<Object>,
    inside: Set<Object>,
    o: Object,
)
    requires
        forall|r: Object| roots.contains(r) ==> inside.contains(r),
        forall|a: Object, b: Object|
            inside.contains(a) && #[trigger] heap.points_to(a, b) ==> inside.contains(b),
        heap.reachable(roots, o),
    ensures
        inside.contains(o),
{
    let path = choose|path: Seq<Object>|
        path.len() > 0 && roots.contains(path[0]) && path.last() == o && #[trigger] heap.is_path(
            path,
        );
    lemma_path_stays_inside(heap, roots, inside, path, path.len() - 1);
}

/// In a heap without dangling handles whose roots resolve, every reachable
/// handle resolves.
pub proof fn lemma_reachable_occupied(heap: HeapModel, roots: Seq<Object>, o: Object)
    requires
        heap.closed(),
        heap.holds_all(roots),
        heap.reachable(roots, o),
    ensures
        heap.occupied(o),
{
    let inside = Set::new(|x: Object| heap.occupied(x));
    assert forall|r: Object| roots.contains(r) implies inside.contains(r) by {
        let i = choose|i: int| 0 <= i < roots.len() && roots[i] == r;
        assert(heap.occupied(roots[i]));
    }
    lemma_reachable_inside(heap, roots, inside, o);
}

} // verus!
