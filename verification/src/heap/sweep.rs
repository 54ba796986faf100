//! The sweep phase of a collection: unmarked slots are freed, the others
//! move together, and every handle is renumbered.

use vstd::prelude::*;
use crate::ecmascript::embedder_object::{EmbedderObject, EmbedderObjectHeapData};
use crate::ecmascript::ordinary::{
    property_refs,
    ObjectData,
    ObjectHeapData,
    OrdinaryObject,
    PropertyEntry,
};
use crate::ecmascript::types::{option_refs, Object, Value};
use crate::heap::compaction::{
    lemma_new_position_bounds,
    new_position,
    CompactionLists,
    CompactionModel,
};

verus! {

/// The first `n` slots without those whose mark is not set, in their order.
pub open spec fn retained<S>(slots: Seq<S>, marks: Seq<bool>, n: int) -> Seq<S>
    decreases n,
{
    if n <= 0 {
        Seq::empty()
    } else if marks[n - 1] {
        retained(slots, marks, n - 1).push(slots[n - 1])
    } else {
        retained(slots, marks, n - 1)
    }
}

/// As many slots are retained as survive.
pub proof fn lemma_retained_len<S>(slots: Seq<S>, marks: Seq<bool>, n: int)
    requires
        0 <= n,
    ensures
        retained(slots, marks, n).len() == new_position(marks, n),
    decreases n,
{
    if n > 0 {
        lemma_retained_len(slots, marks, n - 1);
    }
}

/// A surviving slot is found at its new position.
pub proof fn lemma_retained_index<S>(slots: Seq<S>, marks: Seq<bool>, n: int, i: int)
    requires
        0 <= i < n,
        marks[i],
    ensures
        0 <= new_position(marks, i) < retained(slots, marks, n).len(),
        retained(slots, marks, n)[new_position(marks, i)] == slots[i],
    decreases n,
{
    lemma_retained_len(slots, marks, n - 1);
    lemma_retained_len(slots, marks, n);
    lemma_new_position_bounds(marks, i);
    if i < n - 1 {
        lemma_retained_index(slots, marks, n - 1, i);
    }
}

/// Every retained slot is a surviving slot, found at its new position.
pub proof fn lemma_retained_origin<S>(slots: Seq<S>, marks: Seq<bool>, n: int, j: int) -> (i: int)
    requires
        0 <= j < retained(slots, marks, n).len(),
    ensures
        0 <= i < n,
        marks[i],
        new_position(marks, i) == j,
        retained(slots, marks, n)[j] == slots[i],
    decreases n,
{
    lemma_retained_len(slots, marks, n - 1);
    if marks[n - 1] && j == retained(slots, marks, n - 1).len() {
        n - 1
    } else {
        lemma_retained_origin(slots, marks, n - 1, j)
    }
}

/// To retain slots and then map them is to map them and then retain.
pub proof fn lemma_retained_map<S, R>(
    slots: Seq<S>,
    marks: Seq<bool>,
    n: int,
    f: spec_fn(S) -> R,
)
    requires
        0 <= n <= slots.len(),
    ensures
        retained(slots.map_values(f), marks, n) == retained(slots, marks, n).map_values(f),
    decreases n,
{
    if n <= 0 {
        assert(retained(slots.map_values(f), marks, n) =~= retained(slots, marks, n).map_values(f));
    } else {
        lemma_retained_map(slots, marks, n - 1, f);
        assert(retained(slots.map_values(f), marks, n) =~= retained(slots, marks, n).map_values(f));
    }
}

/// Empties one slot and hands out what it held.
pub fn take_slot<T>(slots: &mut Vec<Option<T>>, i: usize) -> (slot: Option<T>)
    requires
        i < old(slots)@.len(),
    ensures
        slot == old(slots)@[i as int],
        final(slots)@ == old(slots)@.update(i as int, None),
{
    let mut taken: Option<T> = None;
    core::mem::swap(&mut slots[i], &mut taken);
    taken
}

/// Frees every slot whose mark is not set and closes the gaps: the slots
/// that stay move towards the front and keep their order.
pub fn sweep_heap_vector<T>(slots: &mut Vec<Option<T>>, marks: &Vec<bool>)
    requires
        marks@.len() == old(slots)@.len(),
    ensures
        final(slots)@ == retained(old(slots)@, marks@, marks@.len() as int),
{
    let ghost before = slots@;
    let n = slots.len();
    let mut read: usize = 0;
    let mut write: usize = 0;
    while read < n
        invariant
            read <= n,
            n == before.len(),
            marks@.len() == n,
            slots@.len() == n,
            write == new_position(marks@, read as int),
            write <= read,
            slots@.subrange(0, write as int) == retained(before, marks@, read as int),
            forall|k: int| read <= k < n ==> slots@[k] == before[k],
        decreases n - read,
    {
        let slot = take_slot(slots, read);
        if marks[read] {
            let ghost emptied = slots@;
            slots.set(write, slot);
            assert(slots@.subrange(0, write + 1) =~= emptied.subrange(0, write as int).push(slot));
            write = write + 1;
        }
        read = read + 1;
    }
    slots.truncate(write);
}

impl CompactionModel {
    /// An optional handle after compaction.
    pub open spec fn shift_option(self, link: Option<Object>) -> Option<Object> {
        match link {
            Some(o) => Some(self.shift(o)),
            None => None,
        }
    }
}

impl Value {
    /// The value after compaction: a handle is renumbered, anything else is
    /// what it was.
    pub open spec fn shifted(self, compactions: CompactionModel) -> Value {
        match self {
            Value::Object(h) => Value::Object(compactions.shift_ordinary(h)),
            Value::EmbedderObject(e) => Value::EmbedderObject(compactions.shift_embedder(e)),
            other => other,
        }
    }
}

impl PropertyEntry {
    /// The property after compaction: its value is renumbered.
    pub open spec fn shifted(self, compactions: CompactionModel) -> PropertyEntry {
        PropertyEntry { value: self.value.shifted(compactions), ..self }
    }
}

impl ObjectData {
    /// The payload after compaction: every handle that it holds is
    /// renumbered.
    pub open spec fn shifted(self, compactions: CompactionModel) -> ObjectData {
        ObjectData {
            extensible: self.extensible,
            prototype: compactions.shift_option(self.prototype),
            properties: self.properties.map_values(|e: PropertyEntry| e.shifted(compactions)),
        }
    }
}

impl EmbedderObjectHeapData {
    /// The payload after compaction: every handle that it holds is
    /// renumbered.
    pub open spec fn shifted(self, compactions: CompactionModel) -> EmbedderObjectHeapData {
        EmbedderObjectHeapData {
            prototype: compactions.shift_option(self.prototype),
            backing_object: match self.backing_object {
                Some(b) => Some(compactions.shift_ordinary(b)),
                None => None,
            },
            ..self
        }
    }
}

/// A slot of ordinary objects after compaction.
pub open spec fn shifted_slot(slot: Option<ObjectData>, compactions: CompactionModel) -> Option<
    ObjectData,
> {
    match slot {
        Some(data) => Some(data.shifted(compactions)),
        None => None,
    }
}

/// A slot of embedder objects after compaction.
pub open spec fn shifted_embedder_slot(
    slot: Option<EmbedderObjectHeapData>,
    compactions: CompactionModel,
) -> Option<EmbedderObjectHeapData> {
    match slot {
        Some(data) => Some(data.shifted(compactions)),
        None => None,
    }
}

/// The handles of one property are among those of all.
pub proof fn lemma_property_refs_contains(properties: Seq<PropertyEntry>, k: int, o: Object)
    requires
        0 <= k < properties.len(),
        properties[k].value.refs().contains(o),
    ensures
        property_refs(properties).contains(o),
    decreases properties.len(),
{
    let front = property_refs(properties.drop_last());
    let back = properties.last().value.refs();
    if k == properties.len() - 1 {
        let i = choose|i: int| 0 <= i < back.len() && back[i] == o;
        assert((front + back)[front.len() + i] == o);
    } else {
        lemma_property_refs_contains(properties.drop_last(), k, o);
        let i = choose|i: int| 0 <= i < front.len() && front[i] == o;
        assert((front + back)[i] == o);
    }
}

/// A handle among those of all properties is the handle of one of them.
pub proof fn lemma_property_refs_origin(properties: Seq<PropertyEntry>, o: Object) -> (k: int)
    requires
        property_refs(properties).contains(o),
    ensures
        0 <= k < properties.len(),
        properties[k].value.as_object() == Some(o),
    decreases properties.len(),
{
    let front = property_refs(properties.drop_last());
    let back = properties.last().value.refs();
    let i = choose|i: int| 0 <= i < (front + back).len() && (front + back)[i] == o;
    if i < front.len() {
        assert(front[i] == o);
        lemma_property_refs_origin(properties.drop_last(), o)
    } else {
        assert(back[i - front.len()] == o);
        properties.len() - 1
    }
}

/// The handles of the renumbered properties are the renumbered handles of
/// the properties.
pub proof fn lemma_property_refs_shifted(
    properties: Seq<PropertyEntry>,
    compactions: CompactionModel,
)
    ensures
        property_refs(properties.map_values(|e: PropertyEntry| e.shifted(compactions)))
            == compactions.shift_all(property_refs(properties)),
    decreases properties.len(),
{
    let moved = properties.map_values(|e: PropertyEntry| e.shifted(compactions));
    if properties.len() == 0 {
        assert(property_refs(moved) =~= compactions.shift_all(property_refs(properties)));
    } else {
        lemma_property_refs_shifted(properties.drop_last(), compactions);
        assert(moved.drop_last() =~= properties.drop_last().map_values(
            |e: PropertyEntry| e.shifted(compactions),
        ));
        assert(moved.last().value.refs() =~= compactions.shift_all(
            properties.last().value.refs(),
        ));
        assert(property_refs(moved) =~= compactions.shift_all(property_refs(properties)));
    }
}

/// The handles of a renumbered payload are its handles, renumbered.
pub proof fn lemma_object_refs_shifted(data: ObjectData, compactions: CompactionModel)
    ensures
        data.shifted(compactions).refs() == compactions.shift_all(data.refs()),
{
    lemma_property_refs_shifted(data.properties, compactions);
    assert(option_refs(compactions.shift_option(data.prototype)) =~= compactions.shift_all(
        option_refs(data.prototype),
    ));
    assert(data.shifted(compactions).refs() =~= compactions.shift_all(data.refs()));
}

/// The handles of a renumbered payload are its handles, renumbered.
pub proof fn lemma_embedder_refs_shifted(
    data: EmbedderObjectHeapData,
    compactions: CompactionModel,
)
    ensures
        data.shifted(compactions).refs() == compactions.shift_all(data.refs()),
{
    assert(data.shifted(compactions).refs() =~= compactions.shift_all(data.refs()));
}

impl OrdinaryObject {
    /// Renumbers the handle as the compaction list of its kind says. The
    /// handle names a slot that survives.
    pub fn sweep_values(&mut self, compactions: &CompactionLists)
        requires
            compactions@.wf(),
            compactions@.survives(Object::Object(*old(self))),
        ensures
            *final(self) == compactions@.shift_ordinary(*old(self)),
    {
        compactions.objects.shift_index(&mut self.0);
    }
}

impl EmbedderObject {
    /// Renumbers the handle as the compaction list of its kind says. The
    /// handle names a slot that survives.
    pub fn sweep_values(&mut self, compactions: &CompactionLists)
        requires
            compactions@.wf(),
            compactions@.survives(Object::EmbedderObject(*old(self))),
        ensures
            *final(self) == compactions@.shift_embedder(*old(self)),
    {
        compactions.embedder_objects.shift_index(&mut self.0);
    }
}

impl Object {
    /// Renumbers the handle as the compaction list of its kind says. The
    /// handle names a slot that survives.
    pub fn sweep_values(&mut self, compactions: &CompactionLists)
        requires
            compactions@.wf(),
            compactions@.survives(*old(self)),
        ensures
            *final(self) == compactions@.shift(*old(self)),
    {
        match self {
            Object::Object(h) => h.sweep_values(compactions),
            Object::EmbedderObject(e) => e.sweep_values(compactions),
        }
    }
}

impl Value {
    /// Renumbers the handle that the value holds, if it holds one. That
    /// handle names a slot that survives.
    pub fn sweep_values(&mut self, compactions: &CompactionLists)
        requires
            compactions@.wf(),
            compactions@.all_survive(old(self).refs()),
        ensures
            *final(self) == old(self).shifted(compactions@),
    {
        proof {
            if self.as_object() is Some {
                assert(compactions@.survives(self.refs()[0]));
            }
        }
        match self {
            Value::Object(h) => h.sweep_values(compactions),
            Value::EmbedderObject(e) => e.sweep_values(compactions),
            _ => {},
        }
    }
}

/// Renumbers the handle of a prototype link, if there is one. That handle
/// names a slot that survives.
pub fn sweep_optional_object(link: &mut Option<Object>, compactions: &CompactionLists)
    requires
        compactions@.wf(),
        compactions@.all_survive(option_refs(*old(link))),
    ensures
        *final(link) == compactions@.shift_option(*old(link)),
{
    proof {
        if *link is Some {
            assert(compactions@.survives(option_refs(*link)[0]));
        }
    }
    match link {
        Some(o) => o.sweep_values(compactions),
        None => {},
    }
}

impl ObjectHeapData {
    /// Renumbers every handle that the payload holds. Each of them names a
    /// slot that survives.
    pub fn sweep_values(&mut self, compactions: &CompactionLists)
        requires
            compactions@.wf(),
            compactions@.all_survive(old(self)@.refs()),
        ensures
            final(self)@ == old(self)@.shifted(compactions@),
    {
        let ghost before = self@;
        proof {
            assert forall|i: int| 0 <= i < option_refs(before.prototype).len() implies compactions@.survives(
            #[trigger] option_refs(before.prototype)[i]) by {
                assert(before.refs()[i] == option_refs(before.prototype)[i]);
            }
        }
        sweep_optional_object(&mut self.prototype, compactions);
        let n = self.properties.len();
        let mut k: usize = 0;
        while k < n
            invariant
                k <= n,
                n == before.properties.len(),
                self.properties@.len() == n,
                compactions@.wf(),
                compactions@.all_survive(before.refs()),
                self.extensible == before.extensible,
                self.prototype == compactions@.shift_option(before.prototype),
                forall|i: int|
                    0 <= i < k ==> self.properties@[i] == before.properties[i].shifted(
                        compactions@,
                    ),
                forall|i: int| k <= i < n ==> self.properties@[i] == before.properties[i],
            decreases n - k,
        {
            let mut entry = self.properties[k];
            proof {
                let refs = entry.value.refs();
                assert forall|i: int| 0 <= i < refs.len() implies compactions@.survives(
                    #[trigger] refs[i],
                ) by {
                    lemma_property_refs_contains(before.properties, k as int, refs[i]);
                    let front = option_refs(before.prototype);
                    let all = property_refs(before.properties);
                    let j = choose|j: int| 0 <= j < all.len() && all[j] == refs[i];
                    assert(before.refs()[front.len() + j] == refs[i]);
                }
            }
            entry.value.sweep_values(compactions);
            self.properties.set(k, entry);
            k = k + 1;
        }
        assert(self@.properties =~= before.shifted(compactions@).properties);
    }
}

impl EmbedderObjectHeapData {
    /// Renumbers every handle that the payload holds. Each of them names a
    /// slot that survives.
    pub fn sweep_values(&mut self, compactions: &CompactionLists)
        requires
            compactions@.wf(),
            compactions@.all_survive(old(self).refs()),
        ensures
            *final(self) == old(self).shifted(compactions@),
    {
        let ghost before = *self;
        proof {
            let front = option_refs(before.prototype);
            assert forall|i: int| 0 <= i < front.len() implies compactions@.survives(
                #[trigger] front[i],
            ) by {
                assert(before.refs()[i] == front[i]);
            }
            if let Some(b) = before.backing_object {
                assert(before.refs()[front.len() as int] == Object::Object(b));
            }
        }
        sweep_optional_object(&mut self.prototype, compactions);
        match &mut self.backing_object {
            Some(b) => b.sweep_values(compactions),
            None => {},
        }
    }
}

/// Renumbers the handles in every payload of the arena of ordinary objects.
pub fn sweep_object_values(slots: &mut Vec<Option<ObjectHeapData>>, compactions: &CompactionLists)
    requires
        compactions@.wf(),
        forall|j: int|
            0 <= j < old(slots)@.len() && old(slots)@[j] is Some ==> compactions@.all_survive(
                (#[trigger] old(slots)@[j])->0@.refs(),
            ),
    ensures
        final(slots)@.len() == old(slots)@.len(),
        forall|j: int|
            0 <= j < old(slots)@.len() ==> match old(slots)@[j] {
                Some(data) => (#[trigger] final(slots)@[j]) is Some && final(slots)@[j]->0@
                    == data@.shifted(compactions@),
                None => final(slots)@[j] is None,
            },
{
    let ghost before = slots@;
    let n = slots.len();
    let mut j: usize = 0;
    while j < n
        invariant
            j <= n,
            n == before.len(),
            slots@.len() == n,
            compactions@.wf(),
            forall|i: int|
                0 <= i < n && before[i] is Some ==> compactions@.all_survive(
                    (#[trigger] before[i])->0@.refs(),
                ),
            forall|i: int|
                0 <= i < j ==> match before[i] {
                    Some(data) => (#[trigger] slots@[i]) is Some && slots@[i]->0@ == data@.shifted(
                        compactions@,
                    ),
                    None => slots@[i] is None,
                },
            forall|i: int| j <= i < n ==> slots@[i] == before[i],
        decreases n - j,
    {
        let mut slot = take_slot(slots, j);
        assert(slot == before[j as int]);
        match &mut slot {
            Some(data) => {
                data.sweep_values(compactions);
            },
            None => {},
        }
        slots.set(j, slot);
        j = j + 1;
    }
}

/// Renumbers the handles in every payload of the arena of embedder objects.
pub fn sweep_embedder_object_values(
    slots: &mut Vec<Option<EmbedderObjectHeapData>>,
    compactions: &CompactionLists,
)
    requires
        compactions@.wf(),
        forall|j: int|
            0 <= j < old(slots)@.len() && old(slots)@[j] is Some ==> compactions@.all_survive(
                (#[trigger] old(slots)@[j])->0.refs(),
            ),
    ensures
        final(slots)@.len() == old(slots)@.len(),
        forall|j: int|
            0 <= j < old(slots)@.len() ==> #[trigger] final(slots)@[j] == shifted_embedder_slot(
                old(slots)@[j],
                compactions@,
            ),
{
    let ghost before = slots@;
    let n = slots.len();
    let mut j: usize = 0;
    while j < n
        invariant
            j <= n,
            n == before.len(),
            slots@.len() == n,
            compactions@.wf(),
            forall|i: int|
                0 <= i < n && before[i] is Some ==> compactions@.all_survive(
                    (#[trigger] before[i])->0.refs(),
                ),
            forall|i: int|
                0 <= i < j ==> #[trigger] slots@[i] == shifted_embedder_slot(
                    before[i],
                    compactions@,
                ),
            forall|i: int| j <= i < n ==> slots@[i] == before[i],
        decreases n - j,
    {
        let mut slot = slots[j];
        assert(slot == before[j as int]);
        match &mut slot {
            Some(data) => {
                data.sweep_values(compactions);
            },
            None => {},
        }
        slots.set(j, slot);
        j = j + 1;
    }
}

/// Renumbers the roots.
pub fn sweep_roots(roots: &mut Vec<Object>, compactions: &CompactionLists)
    requires
        compactions@.wf(),
        compactions@.all_survive(old(roots)@),
    ensures
        final(roots)@ == compactions@.shift_all(old(roots)@),
{
    let ghost before = roots@;
    let n = roots.len();
    let mut j: usize = 0;
    while j < n
        invariant
            j <= n,
            n == before.len(),
            roots@.len() == n,
            compactions@.wf(),
            compactions@.all_survive(before),
            forall|i: int| 0 <= i < j ==> roots@[i] == compactions@.shift(before[i]),
            forall|i: int| j <= i < n ==> roots@[i] == before[i],
        decreases n - j,
    {
        let mut root = roots[j];
        assert(compactions@.survives(before[j as int]));
        root.sweep_values(compactions);
        roots.set(j, root);
        j = j + 1;
    }
    assert(roots@ =~= compactions@.shift_all(before));
}

} // verus!
