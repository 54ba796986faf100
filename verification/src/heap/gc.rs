//! A whole collection, and what holds of the heap that it leaves.

use vstd::prelude::*;
use crate::ecmascript::chain::lemma_collected_acyclic;
use crate::ecmascript::embedder_object::{EmbedderObject, EmbedderObjectHeapData};
use crate::ecmascript::ordinary::{ObjectData, ObjectHeapData, OrdinaryObject};
use crate::ecmascript::types::Object;
use crate::heap::compaction::{
    lemma_new_position_bounds,
    lemma_order_preserved,
    lemma_positions_of_bounds,
    lemma_survivor_position,
    new_position,
    positions_of,
    CompactionList,
    CompactionLists,
    CompactionModel,
};
use crate::heap::indexes::BaseIndex;
use crate::heap::mark::{mark, BitsModel, HeapBits};
use crate::heap::model::{
    lemma_reachable_occupied,
    lemma_reachable_step,
    lemma_root_reachable,
    HeapModel,
};
use crate::heap::sweep::{
    lemma_embedder_refs_shifted,
    lemma_object_refs_shifted,
    lemma_retained_index,
    lemma_retained_len,
    lemma_retained_map,
    lemma_retained_origin,
    retained,
    shifted_embedder_slot,
    shifted_slot,
    sweep_embedder_object_values,
    sweep_heap_vector,
    sweep_object_values,
    sweep_roots,
};
use crate::heap::{slot_view, Heap};

verus! {

/// The handle of the ordinary object in slot `i`.
pub open spec fn ordinary_at(i: int) -> Object {
    Object::Object(OrdinaryObject(BaseIndex { value: (i + 1) as u32 }))
}

/// The handle of the embedder object in slot `i`.
pub open spec fn embedder_at(i: int) -> Object {
    Object::EmbedderObject(EmbedderObject(BaseIndex { value: (i + 1) as u32 }))
}

/// For each slot, whether its handle is reachable from the roots.
pub open spec fn live(heap: HeapModel, roots: Seq<Object>) -> BitsModel {
    BitsModel {
        objects: Seq::new(heap.objects.len(), |i: int| heap.reachable(roots, ordinary_at(i))),
        embedder_objects: Seq::new(
            heap.embedder_objects.len(),
            |i: int| heap.reachable(roots, embedder_at(i)),
        ),
    }
}

/// Where a collection sends each slot: a reachable slot to its place less
/// the unreachable slots before it, an unreachable slot nowhere.
pub open spec fn forwarding(heap: HeapModel, roots: Seq<Object>) -> CompactionModel {
    CompactionModel {
        objects: positions_of(live(heap, roots).objects),
        embedder_objects: positions_of(live(heap, roots).embedder_objects),
    }
}

/// The heap after a collection: of each arena the reachable slots, in their
/// order, with every handle in their payloads renumbered.
pub open spec fn collected(heap: HeapModel, roots: Seq<Object>) -> HeapModel {
    HeapModel {
        objects: retained(
            heap.objects,
            live(heap, roots).objects,
            heap.objects.len() as int,
        ).map_values(|slot: Option<ObjectData>| shifted_slot(slot, forwarding(heap, roots))),
        embedder_objects: retained(
            heap.embedder_objects,
            live(heap, roots).embedder_objects,
            heap.embedder_objects.len() as int,
        ).map_values(
            |slot: Option<EmbedderObjectHeapData>|
                shifted_embedder_slot(slot, forwarding(heap, roots)),
        ),
    }
}

/// A handle that resolves is the handle of its slot, and no other handle of
/// its kind names that slot.
pub proof fn lemma_handle_of_slot(heap: HeapModel, o: Object)
    requires
        heap.wf(),
        heap.occupied(o),
    ensures
        match o {
            Object::Object(h) => o == ordinary_at(h.0.index()),
            Object::EmbedderObject(e) => o == embedder_at(e.0.index()),
        },
{
}

/// What is reachable survives a collection: its handle, renumbered,
/// resolves to its payload, in which every handle is renumbered.
pub proof fn lemma_collected_survivor(heap: HeapModel, roots: Seq<Object>, o: Object)
    requires
        heap.wf(),
        heap.holds_all(roots),
        heap.reachable(roots, o),
    ensures
        heap.occupied(o),
        forwarding(heap, roots).survives(o),
        collected(heap, roots).occupied(forwarding(heap, roots).shift(o)),
        match o {
            Object::Object(h) => {
                &&& forwarding(heap, roots).shift_ordinary(h).0.index() == new_position(
                    live(heap, roots).objects,
                    h.0.index(),
                )
                &&& collected(heap, roots).object(forwarding(heap, roots).shift_ordinary(h))
                    == heap.object(h).shifted(forwarding(heap, roots))
            },
            Object::EmbedderObject(e) => {
                &&& forwarding(heap, roots).shift_embedder(e).0.index() == new_position(
                    live(heap, roots).embedder_objects,
                    e.0.index(),
                )
                &&& collected(heap, roots).embedder_object(
                    forwarding(heap, roots).shift_embedder(e),
                ) == heap.embedder_object(e).shifted(forwarding(heap, roots))
            },
        },
{
    lemma_reachable_occupied(heap, roots, o);
    lemma_handle_of_slot(heap, o);
    let marks = live(heap, roots);
    match o {
        Object::Object(h) => {
            let i = h.0.index();
            let n = heap.objects.len() as int;
            lemma_positions_of_bounds(marks.objects);
            lemma_survivor_position(marks.objects, i);
            lemma_retained_index(heap.objects, marks.objects, n, i);
            lemma_retained_len(heap.objects, marks.objects, n);
        },
        Object::EmbedderObject(e) => {
            let i = e.0.index();
            let n = heap.embedder_objects.len() as int;
            lemma_positions_of_bounds(marks.embedder_objects);
            lemma_survivor_position(marks.embedder_objects, i);
            lemma_retained_index(heap.embedder_objects, marks.embedder_objects, n, i);
            lemma_retained_len(heap.embedder_objects, marks.embedder_objects, n);
        },
    }
}

/// What resolves after a collection was reachable before it: every slot of
/// the new heap is the new place of a reachable handle.
pub proof fn lemma_collected_origin(heap: HeapModel, roots: Seq<Object>, after: Object) -> (o:
    Object)
    requires
        heap.wf(),
        heap.holds_all(roots),
        match after {
            Object::Object(h) => 0 <= h.0.index() < collected(heap, roots).objects.len(),
            Object::EmbedderObject(e) => 0 <= e.0.index() < collected(
                heap,
                roots,
            ).embedder_objects.len(),
        },
    ensures
        heap.reachable(roots, o),
        forwarding(heap, roots).shift(o) == after,
        collected(heap, roots).occupied(after),
{
    let marks = live(heap, roots);
    match after {
        Object::Object(h) => {
            let n = heap.objects.len() as int;
            let i = lemma_retained_origin(heap.objects, marks.objects, n, h.0.index());
            let o = ordinary_at(i);
            lemma_collected_survivor(heap, roots, o);
            assert(forwarding(heap, roots).shift(o) == after);
            o
        },
        Object::EmbedderObject(e) => {
            let n = heap.embedder_objects.len() as int;
            let i = lemma_retained_origin(
                heap.embedder_objects,
                marks.embedder_objects,
                n,
                e.0.index(),
            );
            let o = embedder_at(i);
            lemma_collected_survivor(heap, roots, o);
            assert(forwarding(heap, roots).shift(o) == after);
            o
        },
    }
}

/// A collection keeps the order of the survivors of each kind: of two
/// reachable handles of one kind, the one with the smaller number has the
/// smaller number afterwards.
pub proof fn lemma_collected_order(heap: HeapModel, roots: Seq<Object>, a: Object, b: Object)
    requires
        heap.wf(),
        heap.holds_all(roots),
        heap.reachable(roots, a),
        heap.reachable(roots, b),
    ensures
        match (a, b) {
            (Object::Object(x), Object::Object(y)) => x.0.value < y.0.value ==> forwarding(
                heap,
                roots,
            ).shift_ordinary(x).0.value < forwarding(heap, roots).shift_ordinary(y).0.value,
            (Object::EmbedderObject(x), Object::EmbedderObject(y)) => x.0.value < y.0.value
                ==> forwarding(heap, roots).shift_embedder(x).0.value < forwarding(
                heap,
                roots,
            ).shift_embedder(y).0.value,
            _ => true,
        },
{
    lemma_collected_survivor(heap, roots, a);
    lemma_collected_survivor(heap, roots, b);
    lemma_handle_of_slot(heap, a);
    lemma_handle_of_slot(heap, b);
    let marks = live(heap, roots);
    match (a, b) {
        (Object::Object(x), Object::Object(y)) => {
            if x.0.value < y.0.value {
                lemma_order_preserved(marks.objects, x.0.index(), y.0.index());
            }
        },
        (Object::EmbedderObject(x), Object::EmbedderObject(y)) => {
            if x.0.value < y.0.value {
                lemma_order_preserved(marks.embedder_objects, x.0.index(), y.0.index());
            }
        },
        _ => {},
    }
}

/// After a collection no handle dangles: the heap is in order, and every
/// renumbered root resolves.
pub proof fn lemma_collected_wf(heap: HeapModel, roots: Seq<Object>)
    requires
        heap.wf(),
        heap.holds_all(roots),
    ensures
        collected(heap, roots).wf(),
        collected(heap, roots).holds_all(forwarding(heap, roots).shift_all(roots)),
        forwarding(heap, roots).wf(),
        forwarding(heap, roots).all_survive(roots),
{
    let after = collected(heap, roots);
    let c = forwarding(heap, roots);
    let marks = live(heap, roots);
    lemma_retained_len(heap.objects, marks.objects, heap.objects.len() as int);
    lemma_retained_len(
        heap.embedder_objects,
        marks.embedder_objects,
        heap.embedder_objects.len() as int,
    );
    lemma_positions_of_bounds(marks.objects);
    lemma_positions_of_bounds(marks.embedder_objects);
    lemma_new_position_bounds(marks.objects, marks.objects.len() as int);
    lemma_new_position_bounds(
        marks.embedder_objects,
        marks.embedder_objects.len() as int,
    );
    assert forall|i: int| 0 <= i < roots.len() implies c.survives(#[trigger] roots[i])
        && after.occupied(c.shift_all(roots)[i]) by {
        lemma_root_reachable(heap, roots, roots[i]);
        lemma_collected_survivor(heap, roots, roots[i]);
    }
    assert forall|a2: Object, b2: Object| #[trigger] after.points_to(a2, b2) implies after.occupied(
        b2,
    ) by {
        assert(after.occupied(a2));
        let a = lemma_collected_origin(heap, roots, a2);
        lemma_collected_survivor(heap, roots, a);
        match a {
            Object::Object(h) => {
                lemma_object_refs_shifted(heap.object(h), c);
            },
            Object::EmbedderObject(e) => {
                lemma_embedder_refs_shifted(heap.embedder_object(e), c);
            },
        }
        assert(after.refs(a2) == c.shift_all(heap.refs(a)));
        let k = choose|k: int| 0 <= k < after.refs(a2).len() && after.refs(a2)[k] == b2;
        let b = heap.refs(a)[k];
        assert(heap.points_to(a, b));
        lemma_reachable_step(heap, roots, a, b);
        lemma_collected_survivor(heap, roots, b);
    }
    assert forall|i: int| 0 <= i < after.objects.len() && after.objects[i] is Some implies (
    #[trigger] after.objects[i])->0.wf() by {
        let j = lemma_retained_origin(
            heap.objects,
            marks.objects,
            heap.objects.len() as int,
            i,
        );
        assert(heap.objects[j]->0.wf());
    }
}

impl CompactionLists {
    /// Lays down the compaction lists that the marks give: one for each
    /// arena.
    pub fn from_bits(bits: &HeapBits) -> (lists: CompactionLists)
        requires
            bits@.objects.len() <= u32::MAX,
            bits@.embedder_objects.len() <= u32::MAX,
        ensures
            lists@.objects == positions_of(bits@.objects),
            lists@.embedder_objects == positions_of(bits@.embedder_objects),
    {
        CompactionLists {
            objects: CompactionList::from_mark_bits(&bits.objects),
            embedder_objects: CompactionList::from_mark_bits(&bits.embedder_objects),
        }
    }
}

/// Runs one collection, from marking to compaction, while the script
/// stands still. What is reachable from the roots stays, in its order, and
/// everything else is freed; the arenas close their gaps; and every handle
/// in the heap and among the roots is renumbered to name the payload that it
/// named before. The lists that come back renumber the handles that the host
/// keeps elsewhere; a handle that they do not renumber dangles.
pub fn heap_gc(heap: &mut Heap, roots: &mut Vec<Object>) -> (compactions: CompactionLists)
    requires
        old(heap)@.wf(),
        old(heap)@.holds_all(old(roots)@),
    ensures
        compactions@ == forwarding(old(heap)@, old(roots)@),
        final(heap)@ == collected(old(heap)@, old(roots)@),
        final(roots)@ == compactions@.shift_all(old(roots)@),
        final(heap)@.wf(),
        final(heap)@.holds_all(final(roots)@),
        old(heap)@.acyclic() ==> final(heap)@.acyclic(),
        final(heap).allocations == 0,
        final(heap).threshold == old(heap).threshold,
        forall|o: Object|
            old(heap)@.reachable(old(roots)@, o) ==> final(heap)@.occupied(
                #[trigger] compactions@.shift(o),
            ),
        forall|after: Object| #[trigger]
            final(heap)@.occupied(after) ==> exists|o: Object|
                old(heap)@.reachable(old(roots)@, o) && #[trigger] compactions@.shift(o) == after,
{
    let ghost before = heap@;
    let ghost before_roots = roots@;
    let ghost old_objects = heap.objects@;
    let ghost old_embedder = heap.embedder_objects@;
    let bits = mark(heap, roots);
    proof {
        assert forall|i: int| 0 <= i < before.objects.len() implies bits@.objects[i]
            == before.reachable(before_roots, ordinary_at(i)) by {
            assert(bits@.marked(ordinary_at(i)) == bits@.objects[i]);
        }
        assert forall|i: int| 0 <= i < before.embedder_objects.len() implies bits@.embedder_objects[i]
            == before.reachable(before_roots, embedder_at(i)) by {
            assert(bits@.marked(embedder_at(i)) == bits@.embedder_objects[i]);
        }
        assert(bits@.objects =~= live(before, before_roots).objects);
        assert(bits@.embedder_objects =~= live(before, before_roots).embedder_objects);
    }
    let compactions = CompactionLists::from_bits(&bits);
    let ghost c = compactions@;
    proof {
        assert(c == forwarding(before, before_roots));
        lemma_collected_wf(before, before_roots);
        if before.acyclic() {
            lemma_collected_acyclic(before, before_roots);
        }
    }
    sweep_heap_vector(&mut heap.objects, &bits.objects);
    sweep_heap_vector(&mut heap.embedder_objects, &bits.embedder_objects);
    let ghost kept_objects = heap.objects@;
    let ghost kept_embedder = heap.embedder_objects@;
    proof {
        assert forall|j: int| 0 <= j < kept_objects.len() && kept_objects[j] is Some implies c.all_survive(
            (#[trigger] kept_objects[j])->0@.refs(),
        ) by {
            let i = lemma_retained_origin(
                old_objects,
                bits@.objects,
                old_objects.len() as int,
                j,
            );
            let a = ordinary_at(i);
            let refs = kept_objects[j]->0@.refs();
            assert(before.objects[i] == slot_view(old_objects[i]));
            assert(before.refs(a) == refs);
            assert forall|k: int| 0 <= k < refs.len() implies c.survives(#[trigger] refs[k]) by {
                assert(before.points_to(a, refs[k]));
                lemma_reachable_step(before, before_roots, a, refs[k]);
                lemma_collected_survivor(before, before_roots, refs[k]);
            }
        }
        assert forall|j: int| 0 <= j < kept_embedder.len() && kept_embedder[j] is Some implies c.all_survive(
            (#[trigger] kept_embedder[j])->0.refs(),
        ) by {
            let i = lemma_retained_origin(
                old_embedder,
                bits@.embedder_objects,
                old_embedder.len() as int,
                j,
            );
            let a = embedder_at(i);
            let refs = kept_embedder[j]->0.refs();
            assert(before.refs(a) == refs);
            assert forall|k: int| 0 <= k < refs.len() implies c.survives(#[trigger] refs[k]) by {
                assert(before.points_to(a, refs[k]));
                lemma_reachable_step(before, before_roots, a, refs[k]);
                lemma_collected_survivor(before, before_roots, refs[k]);
            }
        }
    }
    sweep_object_values(&mut heap.objects, &compactions);
    sweep_embedder_object_values(&mut heap.embedder_objects, &compactions);
    sweep_roots(roots, &compactions);
    heap.allocations = 0;
    proof {
        let view = |slot: Option<ObjectHeapData>| slot_view(slot);
        lemma_retained_map(old_objects, bits@.objects, old_objects.len() as int, view);
        assert(before.objects == old_objects.map_values(view));
        assert(heap@.objects =~= collected(before, before_roots).objects);
        assert(heap@.embedder_objects =~= collected(before, before_roots).embedder_objects);
        assert(heap@ == collected(before, before_roots));
        assert forall|o: Object| before.reachable(before_roots, o) implies heap@.occupied(
            #[trigger] c.shift(o),
        ) by {
            lemma_collected_survivor(before, before_roots, o);
        }
        assert forall|after: Object| #[trigger] heap@.occupied(after) implies exists|o: Object|
            before.reachable(before_roots, o) && #[trigger] c.shift(o) == after by {
            let o = lemma_collected_origin(before, before_roots, after);
            assert(before.reachable(before_roots, o) && c.shift(o) == after);
        }
    }
    compactions
}

impl Heap {
    /// Whether a collection is due: as many payloads were allocated since
    /// the last one as the threshold says.
    pub fn should_collect(&self) -> (due: bool)
        ensures
            due == (self.allocations >= self.threshold),
    {
        self.allocations >= self.threshold
    }

    /// Runs a collection if one is due, and none otherwise.
    pub fn collect_if_due(&mut self, roots: &mut Vec<Object>) -> (compactions: Option<
        CompactionLists,
    >)
        requires
            old(self)@.wf(),
            old(self)@.holds_all(old(roots)@),
        ensures
            final(self)@.wf(),
            final(self)@.holds_all(final(roots)@),
            old(self)@.acyclic() ==> final(self)@.acyclic(),
            final(self).threshold == old(self).threshold,
            match compactions {
                Some(lists) => {
                    &&& old(self).allocations >= old(self).threshold
                    &&& lists@ == forwarding(old(self)@, old(roots)@)
                    &&& final(self)@ == collected(old(self)@, old(roots)@)
                    &&& final(roots)@ == lists@.shift_all(old(roots)@)
                    &&& final(self).allocations == 0
                },
                None => {
                    &&& old(self).allocations < old(self).threshold
                    &&& *final(self) == *old(self)
                    &&& *final(roots) == *old(roots)
                },
            },
    {
        if self.should_collect() {
            Some(heap_gc(self, roots))
        } else {
            None
        }
    }
}

} // verus!
