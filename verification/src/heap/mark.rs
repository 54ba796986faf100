//! The mark phase of a collection: from the roots to every slot that is
//! reachable.

use vstd::prelude::*;
use crate::ecmascript::embedder_object::{EmbedderObject, EmbedderObjectHeapData};
use crate::ecmascript::ordinary::{property_refs, ObjectHeapData, OrdinaryObject, PropertyEntry};
use crate::ecmascript::types::{option_refs, Object, Value};
use crate::heap::compaction::{freed_before, lemma_freed_before_set, lemma_new_position_bounds};
use crate::heap::model::{
    lemma_reachable_inside,
    lemma_reachable_occupied,
    lemma_reachable_step,
    lemma_root_reachable,
    HeapModel,
};
use crate::heap::Heap;

verus! {

/// One mark for each slot of each arena.
#[derive(Debug)]
pub struct HeapBits {
    pub objects: Vec<bool>,
    pub embedder_objects: Vec<bool>,
}

/// What the marks say.
pub struct BitsModel {
    pub objects: Seq<bool>,
    pub embedder_objects: Seq<bool>,
}

impl View for HeapBits {
    type V = BitsModel;

    open spec fn view(&self) -> BitsModel {
        BitsModel { objects: self.objects@, embedder_objects: self.embedder_objects@ }
    }
}

impl BitsModel {
    /// The slot that the handle names is marked.
    pub open spec fn marked(self, o: Object) -> bool {
        match o {
            Object::Object(h) => 0 <= h.0.index() < self.objects.len() && self.objects[h.0.index()],
            Object::EmbedderObject(e) => 0 <= e.0.index() < self.embedder_objects.len()
                && self.embedder_objects[e.0.index()],
        }
    }

    /// The marks with that of one more slot set.
    pub open spec fn mark(self, o: Object) -> BitsModel {
        match o {
            Object::Object(h) => BitsModel { objects: self.objects.update(h.0.index(), true), ..self },
            Object::EmbedderObject(e) => BitsModel {
                embedder_objects: self.embedder_objects.update(e.0.index(), true),
                ..self
            },
        }
    }

    /// How many slots are not marked.
    pub open spec fn unmarked(self) -> int {
        freed_before(self.objects, self.objects.len() as int) + freed_before(
            self.embedder_objects,
            self.embedder_objects.len() as int,
        )
    }

    /// There is one mark for each slot of the heap.
    pub open spec fn fits(self, heap: HeapModel) -> bool {
        self.objects.len() == heap.objects.len() && self.embedder_objects.len()
            == heap.embedder_objects.len()
    }
}

/// For each kind the handles that were found and wait for their visit.
#[derive(Debug)]
pub struct WorkQueues {
    pub objects: Vec<OrdinaryObject>,
    pub embedder_objects: Vec<EmbedderObject>,
}

/// What the work queues hold.
pub struct QueuesModel {
    pub objects: Seq<OrdinaryObject>,
    pub embedder_objects: Seq<EmbedderObject>,
}

impl View for WorkQueues {
    type V = QueuesModel;

    open spec fn view(&self) -> QueuesModel {
        QueuesModel { objects: self.objects@, embedder_objects: self.embedder_objects@ }
    }
}

impl QueuesModel {
    /// The handle waits in the queue of its kind.
    pub open spec fn queued(self, o: Object) -> bool {
        match o {
            Object::Object(h) => self.objects.contains(h),
            Object::EmbedderObject(e) => self.embedder_objects.contains(e),
        }
    }

    /// The queues with one more handle, at the end of the queue of its kind.
    pub open spec fn push(self, o: Object) -> QueuesModel {
        match o {
            Object::Object(h) => QueuesModel { objects: self.objects.push(h), ..self },
            Object::EmbedderObject(e) => QueuesModel {
                embedder_objects: self.embedder_objects.push(e),
                ..self
            },
        }
    }

    /// The queues with more handles, each at the end of the queue of its
    /// kind, in the order given.
    pub open spec fn push_all(self, handles: Seq<Object>) -> QueuesModel
        decreases handles.len(),
    {
        if handles.len() == 0 {
            self
        } else {
            self.push_all(handles.drop_last()).push(handles.last())
        }
    }

    /// How many handles wait.
    pub open spec fn len(self) -> nat {
        self.objects.len() + self.embedder_objects.len()
    }

    /// The queues without the handles that were visited: the first
    /// `objects` of the one queue and the first `embedder_objects` of the
    /// other.
    pub open spec fn waiting(self, objects: int, embedder_objects: int) -> QueuesModel {
        QueuesModel {
            objects: self.objects.subrange(objects, self.objects.len() as int),
            embedder_objects: self.embedder_objects.subrange(
                embedder_objects,
                self.embedder_objects.len() as int,
            ),
        }
    }
}

/// What waits after a push is what waited, and what was pushed.
pub proof fn lemma_waiting_push_all(
    queues: QueuesModel,
    handles: Seq<Object>,
    objects: int,
    embedder_objects: int,
)
    requires
        0 <= objects <= queues.objects.len(),
        0 <= embedder_objects <= queues.embedder_objects.len(),
    ensures
        queues.push_all(handles).waiting(objects, embedder_objects) == queues.waiting(
            objects,
            embedder_objects,
        ).push_all(handles),
        queues.push_all(handles).objects.len() >= queues.objects.len(),
        queues.push_all(handles).embedder_objects.len() >= queues.embedder_objects.len(),
    decreases handles.len(),
{
    if handles.len() > 0 {
        let front = handles.drop_last();
        lemma_waiting_push_all(queues, front, objects, embedder_objects);
        let pushed = queues.push_all(front);
        let waiting = queues.waiting(objects, embedder_objects).push_all(front);
        match handles.last() {
            Object::Object(h) => {
                assert(pushed.push(handles.last()).waiting(objects, embedder_objects).objects
                    =~= waiting.push(handles.last()).objects);
            },
            Object::EmbedderObject(e) => {
                assert(pushed.push(handles.last()).waiting(
                    objects,
                    embedder_objects,
                ).embedder_objects =~= waiting.push(handles.last()).embedder_objects);
            },
        }
    }
}

/// After a push the queues hold what they held, and the new handle.
pub proof fn lemma_push_queued(queues: QueuesModel, o: Object)
    ensures
        forall|x: Object| #[trigger]
            queues.push(o).queued(x) <==> queues.queued(x) || x == o,
{
    assert forall|x: Object| #[trigger]
        queues.push(o).queued(x) <==> queues.queued(x) || x == o by {
        match o {
            Object::Object(h) => {
                let after = queues.objects.push(h);
                assert(after[after.len() - 1] == h);
                if let Object::Object(y) = x {
                    if queues.objects.contains(y) {
                        let i = choose|i: int| 0 <= i < queues.objects.len() && queues.objects[i] == y;
                        assert(after[i] == y);
                    }
                }
            },
            Object::EmbedderObject(e) => {
                let after = queues.embedder_objects.push(e);
                assert(after[after.len() - 1] == e);
                if let Object::EmbedderObject(y) = x {
                    if queues.embedder_objects.contains(y) {
                        let i = choose|i: int|
                            0 <= i < queues.embedder_objects.len() && queues.embedder_objects[i]
                                == y;
                        assert(after[i] == y);
                    }
                }
            },
        }
    }
}

/// After the push of several handles the queues hold what they held, and
/// the new handles.
pub proof fn lemma_push_all_queued(queues: QueuesModel, handles: Seq<Object>)
    ensures
        forall|x: Object| #[trigger]
            queues.push_all(handles).queued(x) <==> queues.queued(x) || handles.contains(x),
    decreases handles.len(),
{
    if handles.len() > 0 {
        let front = handles.drop_last();
        lemma_push_all_queued(queues, front);
        lemma_push_queued(queues.push_all(front), handles.last());
        assert forall|x: Object| #[trigger]
            queues.push_all(handles).queued(x) <==> queues.queued(x) || handles.contains(x) by {
            if front.contains(x) {
                let i = choose|i: int| 0 <= i < front.len() && front[i] == x;
                assert(handles[i] == x);
            }
            if handles.contains(x) {
                let i = choose|i: int| 0 <= i < handles.len() && handles[i] == x;
                if i < front.len() {
                    assert(front[i] == x);
                } else {
                    assert(x == handles.last());
                }
            }
        }
    }
}

/// To push two runs of handles one after the other is to push them joined.
pub proof fn lemma_push_all_concat(queues: QueuesModel, a: Seq<Object>, b: Seq<Object>)
    ensures
        queues.push_all(a + b) == queues.push_all(a).push_all(b),
    decreases b.len(),
{
    if b.len() == 0 {
        assert(a + b =~= a);
    } else {
        lemma_push_all_concat(queues, a, b.drop_last());
        assert((a + b).drop_last() =~= a + b.drop_last());
        assert((a + b).last() == b.last());
    }
}

/// To push one handle is to push a run of one.
pub proof fn lemma_push_all_one(queues: QueuesModel, o: Object)
    ensures
        queues.push_all(seq![o]) == queues.push(o),
{
    assert(seq![o].drop_last() =~= Seq::<Object>::empty());
    assert(queues.push_all(Seq::<Object>::empty()) == queues);
}

/// The handles of the first `k + 1` properties are those of the first `k`,
/// then those of property `k`.
pub proof fn lemma_property_refs_take(properties: Seq<PropertyEntry>, k: int)
    requires
        0 <= k < properties.len(),
    ensures
        property_refs(properties.take(k + 1)) == property_refs(properties.take(k))
            + properties[k].value.refs(),
{
    assert(properties.take(k + 1).drop_last() =~= properties.take(k));
}

impl OrdinaryObject {
    /// Records the handle as found: it goes to the end of the queue of its
    /// kind.
    pub fn mark_values(&self, queues: &mut WorkQueues)
        ensures
            final(queues)@ == old(queues)@.push(Object::Object(*self)),
    {
        queues.objects.push(*self);
    }
}

impl EmbedderObject {
    /// Records the handle as found: it goes to the end of the queue of its
    /// kind.
    pub fn mark_values(&self, queues: &mut WorkQueues)
        ensures
            final(queues)@ == old(queues)@.push(Object::EmbedderObject(*self)),
    {
        queues.embedder_objects.push(*self);
    }
}

impl Object {
    /// Records the handle as found: it goes to the end of the queue of its
    /// kind.
    pub fn mark_values(&self, queues: &mut WorkQueues)
        ensures
            final(queues)@ == old(queues)@.push(*self),
    {
        match self {
            Object::Object(h) => h.mark_values(queues),
            Object::EmbedderObject(e) => e.mark_values(queues),
        }
    }
}

impl Value {
    /// Records the handle that the value holds, if it holds one.
    pub fn mark_values(&self, queues: &mut WorkQueues)
        ensures
            final(queues)@ == old(queues)@.push_all(self.refs()),
    {
        proof {
            match self.as_object() {
                Some(o) => lemma_push_all_one(queues@, o),
                None => {},
            }
        }
        match self {
            Value::Object(h) => h.mark_values(queues),
            Value::EmbedderObject(e) => e.mark_values(queues),
            _ => {},
        }
    }
}

/// Records the handle of a prototype link, if there is one.
pub fn mark_optional_object(link: &Option<Object>, queues: &mut WorkQueues)
    ensures
        final(queues)@ == old(queues)@.push_all(option_refs(*link)),
{
    match link {
        Some(o) => {
            proof {
                lemma_push_all_one(queues@, *o);
            }
            o.mark_values(queues);
        },
        None => {},
    }
}

impl ObjectHeapData {
    /// Records every handle that the payload holds: the prototype, then
    /// those of the properties in their order.
    pub fn mark_values(&self, queues: &mut WorkQueues)
        ensures
            final(queues)@ == old(queues)@.push_all(self@.refs()),
    {
        let ghost start = queues@;
        mark_optional_object(&self.prototype, queues);
        let mut k: usize = 0;
        proof {
            assert(self.properties@.take(0) =~= Seq::<PropertyEntry>::empty());
            assert(option_refs(self.prototype) + property_refs(self.properties@.take(0))
                =~= option_refs(self.prototype));
        }
        while k < self.properties.len()
            invariant
                k <= self.properties@.len(),
                queues@ == start.push_all(
                    option_refs(self.prototype) + property_refs(self.properties@.take(k as int)),
                ),
            decreases self.properties@.len() - k,
        {
            let ghost done = option_refs(self.prototype) + property_refs(
                self.properties@.take(k as int),
            );
            proof {
                lemma_property_refs_take(self.properties@, k as int);
                lemma_push_all_concat(start, done, self.properties@[k as int].value.refs());
                assert(done + self.properties@[k as int].value.refs() =~= option_refs(
                    self.prototype,
                ) + property_refs(self.properties@.take(k + 1)));
            }
            self.properties[k].value.mark_values(queues);
            k = k + 1;
        }
        assert(self.properties@.take(k as int) =~= self.properties@);
    }
}

impl EmbedderObjectHeapData {
    /// Records every handle that the payload holds: the prototype, then the
    /// backing object.
    pub fn mark_values(&self, queues: &mut WorkQueues)
        ensures
            final(queues)@ == old(queues)@.push_all(self.refs()),
    {
        let ghost start = queues@;
        mark_optional_object(&self.prototype, queues);
        match self.backing_object {
            Some(b) => {
                proof {
                    lemma_push_all_one(queues@, Object::Object(b));
                    lemma_push_all_concat(
                        start,
                        option_refs(self.prototype),
                        seq![Object::Object(b)],
                    );
                }
                b.mark_values(queues);
            },
            None => {
                assert(self.refs() =~= option_refs(self.prototype));
            },
        }
    }
}

/// What holds of the marks and the queues all through marking: what is
/// marked or waits is reachable; every root is marked or waits; and what
/// the payload of a marked object holds is marked or waits.
pub open spec fn mark_state(
    heap: HeapModel,
    roots: Seq<Object>,
    bits: BitsModel,
    queues: QueuesModel,
) -> bool {
    &&& bits.fits(heap)
    &&& forall|o: Object| #[trigger] bits.marked(o) ==> heap.reachable(roots, o)
    &&& forall|o: Object| #[trigger] queues.queued(o) ==> heap.reachable(roots, o)
    &&& forall|r: Object| #[trigger] roots.contains(r) ==> bits.marked(r) || queues.queued(r)
    &&& forall|a: Object, b: Object|
        bits.marked(a) && #[trigger] heap.points_to(a, b) ==> bits.marked(b) || queues.queued(b)
}

/// After one more mark, what was marked is marked, and the new slot too.
pub proof fn lemma_mark_marked(bits: BitsModel, heap: HeapModel, o: Object)
    requires
        bits.fits(heap),
        heap.occupied(o),
    ensures
        forall|x: Object| #[trigger] bits.mark(o).marked(x) <==> bits.marked(x) || x == o,
        bits.mark(o).fits(heap),
        !bits.marked(o) ==> bits.mark(o).unmarked() == bits.unmarked() - 1,
        bits.unmarked() >= 0,
        bits.mark(o).unmarked() >= 0,
{
    lemma_new_position_bounds(bits.mark(o).objects, bits.mark(o).objects.len() as int);
    lemma_new_position_bounds(
        bits.mark(o).embedder_objects,
        bits.mark(o).embedder_objects.len() as int,
    );
    lemma_new_position_bounds(bits.objects, bits.objects.len() as int);
    lemma_new_position_bounds(bits.embedder_objects, bits.embedder_objects.len() as int);
    assert forall|x: Object| #[trigger] bits.mark(o).marked(x) <==> bits.marked(x) || x == o by {
        match (o, x) {
            (Object::Object(h), Object::Object(y)) => {
                if y.0.index() == h.0.index() {
                    assert(y.0.value == h.0.value);
                    assert(y == h);
                }
            },
            (Object::EmbedderObject(e), Object::EmbedderObject(y)) => {
                if y.0.index() == e.0.index() {
                    assert(y.0.value == e.0.value);
                    assert(y == e);
                }
            },
            _ => {},
        }
    }
    if !bits.marked(o) {
        match o {
            Object::Object(h) => {
                lemma_freed_before_set(bits.objects, h.0.index(), bits.objects.len() as int);
            },
            Object::EmbedderObject(e) => {
                lemma_freed_before_set(
                    bits.embedder_objects,
                    e.0.index(),
                    bits.embedder_objects.len() as int,
                );
            },
        }
    }
}

/// One visit keeps the state of marking: a handle that waited is visited;
/// where its slot is marked already nothing more is done, else the slot is
/// marked and the handles of its payload are added to the queues.
pub proof fn lemma_mark_visit(
    heap: HeapModel,
    roots: Seq<Object>,
    bits: BitsModel,
    before: QueuesModel,
    popped: QueuesModel,
    o: Object,
)
    requires
        heap.closed(),
        heap.holds_all(roots),
        mark_state(heap, roots, bits, before),
        before.queued(o),
        forall|x: Object| #[trigger] before.queued(x) ==> popped.queued(x) || x == o,
        forall|x: Object| #[trigger] popped.queued(x) ==> before.queued(x),
    ensures
        heap.occupied(o),
        bits.unmarked() >= 0,
        bits.marked(o) ==> mark_state(heap, roots, bits, popped),
        !bits.marked(o) ==> mark_state(
            heap,
            roots,
            bits.mark(o),
            popped.push_all(heap.refs(o)),
        ),
        !bits.marked(o) ==> bits.mark(o).unmarked() == bits.unmarked() - 1,
        bits.mark(o).unmarked() >= 0,
{
    lemma_reachable_occupied(heap, roots, o);
    lemma_mark_marked(bits, heap, o);
    if bits.marked(o) {
        assert forall|r: Object| #[trigger] roots.contains(r) implies bits.marked(r)
            || popped.queued(r) by {
            if before.queued(r) {
            }
        }
        assert forall|a: Object, b: Object|
            bits.marked(a) && #[trigger] heap.points_to(a, b) implies bits.marked(b)
                || popped.queued(b) by {
            if before.queued(b) {
            }
        }
    } else {
        let bits2 = bits.mark(o);
        let queues2 = popped.push_all(heap.refs(o));
        lemma_push_all_queued(popped, heap.refs(o));
        assert forall|x: Object| #[trigger] queues2.queued(x) implies heap.reachable(roots, x) by {
            if popped.queued(x) {
                assert(before.queued(x));
            } else {
                assert(heap.points_to(o, x));
                lemma_reachable_step(heap, roots, o, x);
            }
        }
        assert forall|r: Object| #[trigger] roots.contains(r) implies bits2.marked(r)
            || queues2.queued(r) by {
            if before.queued(r) {
            }
        }
        assert forall|a: Object, b: Object|
            bits2.marked(a) && #[trigger] heap.points_to(a, b) implies bits2.marked(b)
                || queues2.queued(b) by {
            if a == o {
                assert(heap.refs(o).contains(b));
            } else {
                assert(bits.marked(a));
                if before.queued(b) {
                }
            }
        }
    }
}

/// When nothing waits any more, the marked objects are the reachable ones.
pub proof fn lemma_mark_done(
    heap: HeapModel,
    roots: Seq<Object>,
    bits: BitsModel,
    queues: QueuesModel,
)
    requires
        mark_state(heap, roots, bits, queues),
        queues.len() == 0,
    ensures
        forall|o: Object| #[trigger] bits.marked(o) <==> heap.reachable(roots, o),
{
    let inside = Set::new(|x: Object| bits.marked(x));
    assert forall|x: Object| !queues.queued(x) by {
        match x {
            Object::Object(h) => {
                assert(queues.objects.len() == 0);
            },
            Object::EmbedderObject(e) => {
                assert(queues.embedder_objects.len() == 0);
            },
        }
    }
    assert forall|o: Object| heap.reachable(roots, o) implies #[trigger] bits.marked(o) by {
        assert forall|r: Object| roots.contains(r) implies inside.contains(r) by {
            assert(bits.marked(r) || queues.queued(r));
        }
        assert forall|a: Object, b: Object|
            inside.contains(a) && #[trigger] heap.points_to(a, b) implies inside.contains(b) by {
            assert(bits.marked(b) || queues.queued(b));
        }
        lemma_reachable_inside(heap, roots, inside, o);
    }
}

impl HeapBits {
    /// One mark for each slot of the heap, none of them set.
    pub fn new(heap: &Heap) -> (bits: HeapBits)
        ensures
            bits@.fits(heap@),
            forall|o: Object| !#[trigger] bits@.marked(o),
    {
        let mut objects: Vec<bool> = Vec::new();
        let mut i: usize = 0;
        while i < heap.objects.len()
            invariant
                i <= heap.objects@.len(),
                objects@.len() == i,
                forall|k: int| 0 <= k < i ==> !objects@[k],
            decreases heap.objects@.len() - i,
        {
            objects.push(false);
            i = i + 1;
        }
        let mut embedder_objects: Vec<bool> = Vec::new();
        let mut j: usize = 0;
        while j < heap.embedder_objects.len()
            invariant
                j <= heap.embedder_objects@.len(),
                embedder_objects@.len() == j,
                forall|k: int| 0 <= k < j ==> !embedder_objects@[k],
            decreases heap.embedder_objects@.len() - j,
        {
            embedder_objects.push(false);
            j = j + 1;
        }
        HeapBits { objects, embedder_objects }
    }
}

impl WorkQueues {
    /// Queues in which nothing waits.
    pub fn new() -> (queues: WorkQueues)
        ensures
            queues@.len() == 0,
            queues@.objects == Seq::<OrdinaryObject>::empty(),
            queues@.embedder_objects == Seq::<EmbedderObject>::empty(),
    {
        WorkQueues { objects: Vec::new(), embedder_objects: Vec::new() }
    }

    /// Whether nothing waits.
    pub fn is_empty(&self) -> (b: bool)
        ensures
            b == (self@.len() == 0),
    {
        self.objects.len() == 0 && self.embedder_objects.len() == 0
    }
}

/// Marks every slot that is reachable from the roots, and no other. Each
/// root is put into the queue of its kind; then the queues are gone through
/// from their start until no handle waits: the slot of a handle that is
/// not marked yet gets its mark, and every handle that its payload holds
/// is put at the end of the queues. The queues only grow.
pub fn mark(heap: &Heap, roots: &Vec<Object>) -> (bits: HeapBits)
    requires
        heap@.wf(),
        heap@.holds_all(roots@),
    ensures
        bits@.fits(heap@),
        forall|o: Object| #[trigger] bits@.marked(o) <==> heap@.reachable(roots@, o),
{
    let mut bits = HeapBits::new(heap);
    let mut queues = WorkQueues::new();
    let mut i: usize = 0;
    while i < roots.len()
        invariant
            i <= roots@.len(),
            forall|k: int| 0 <= k < i ==> queues@.queued(#[trigger] roots@[k]),
            forall|o: Object| #[trigger] queues@.queued(o) ==> roots@.contains(o),
        decreases roots@.len() - i,
    {
        proof {
            lemma_push_queued(queues@, roots@[i as int]);
        }
        let ghost before = queues@;
        roots[i].mark_values(&mut queues);
        assert forall|k: int| 0 <= k < i + 1 implies queues@.queued(#[trigger] roots@[k]) by {
            if k < i {
                assert(before.queued(roots@[k]));
            }
        }
        i = i + 1;
    }
    proof {
        assert forall|o: Object| #[trigger] queues@.queued(o) implies heap@.reachable(
            roots@,
            o,
        ) by {
            lemma_root_reachable(heap@, roots@, o);
        }
        assert forall|r: Object| #[trigger] roots@.contains(r) implies bits@.marked(r)
            || queues@.queued(r) by {
            let k = choose|k: int| 0 <= k < roots@.len() && roots@[k] == r;
            assert(queues@.queued(roots@[k]));
        }
        lemma_new_position_bounds(bits@.objects, bits@.objects.len() as int);
        lemma_new_position_bounds(bits@.embedder_objects, bits@.embedder_objects.len() as int);
    }
    let mut visited_objects: usize = 0;
    let mut visited_embedder_objects: usize = 0;
    proof {
        assert(queues@.waiting(0, 0).objects =~= queues@.objects);
        assert(queues@.waiting(0, 0).embedder_objects =~= queues@.embedder_objects);
    }
    while visited_objects < queues.objects.len() || visited_embedder_objects
        < queues.embedder_objects.len()
        invariant
            heap@.wf(),
            heap@.holds_all(roots@),
            visited_objects <= queues@.objects.len(),
            visited_embedder_objects <= queues@.embedder_objects.len(),
            mark_state(
                heap@,
                roots@,
                bits@,
                queues@.waiting(visited_objects as int, visited_embedder_objects as int),
            ),
            bits@.unmarked() >= 0,
        decreases
                bits@.unmarked(),
                queues@.waiting(visited_objects as int, visited_embedder_objects as int).len(),
    {
        let ghost before = queues@.waiting(
            visited_objects as int,
            visited_embedder_objects as int,
        );
        if visited_objects < queues.objects.len() {
            let handle = queues.objects[visited_objects];
            visited_objects = visited_objects + 1;
            let ghost after = queues@.waiting(
                visited_objects as int,
                visited_embedder_objects as int,
            );
            proof {
                let o = Object::Object(handle);
                assert(before.objects[0] == handle);
                assert(after.objects =~= before.objects.subrange(1, before.objects.len() as int));
                assert forall|x: Object| #[trigger] before.queued(x) implies after.queued(x) || x
                    == o by {
                    if let Object::Object(y) = x {
                        let k = choose|k: int| 0 <= k < before.objects.len() && before.objects[k] == y;
                        if k > 0 {
                            assert(after.objects[k - 1] == y);
                        }
                    }
                }
                assert forall|x: Object| #[trigger] after.queued(x) implies before.queued(x) by {
                    if let Object::Object(y) = x {
                        let k = choose|k: int| 0 <= k < after.objects.len() && after.objects[k] == y;
                        assert(before.objects[k + 1] == y);
                    }
                }
                lemma_mark_visit(heap@, roots@, bits@, before, after, o);
            }
            let slot = handle.get_index();
            if !bits.objects[slot] {
                let ghost unvisited = bits@;
                bits.objects.set(slot, true);
                assert(bits@ == unvisited.mark(Object::Object(handle)));
                proof {
                    lemma_waiting_push_all(
                        queues@,
                        heap@.refs(Object::Object(handle)),
                        visited_objects as int,
                        visited_embedder_objects as int,
                    );
                }
                heap.object(handle).mark_values(&mut queues);
            }
        } else {
            let handle = queues.embedder_objects[visited_embedder_objects];
            visited_embedder_objects = visited_embedder_objects + 1;
            let ghost after = queues@.waiting(
                visited_objects as int,
                visited_embedder_objects as int,
            );
            proof {
                let o = Object::EmbedderObject(handle);
                assert(before.embedder_objects[0] == handle);
                assert(after.embedder_objects =~= before.embedder_objects.subrange(
                    1,
                    before.embedder_objects.len() as int,
                ));
                assert forall|x: Object| #[trigger] before.queued(x) implies after.queued(x) || x
                    == o by {
                    if let Object::EmbedderObject(y) = x {
                        let k = choose|k: int|
                            0 <= k < before.embedder_objects.len() && before.embedder_objects[k]
                                == y;
                        if k > 0 {
                            assert(after.embedder_objects[k - 1] == y);
                        }
                    }
                }
                assert forall|x: Object| #[trigger] after.queued(x) implies before.queued(x) by {
                    if let Object::EmbedderObject(y) = x {
                        let k = choose|k: int|
                            0 <= k < after.embedder_objects.len() && after.embedder_objects[k]
                                == y;
                        assert(before.embedder_objects[k + 1] == y);
                    }
                }
                lemma_mark_visit(heap@, roots@, bits@, before, after, o);
            }
            let slot = handle.get_index();
            if !bits.embedder_objects[slot] {
                let ghost unvisited = bits@;
                bits.embedder_objects.set(slot, true);
                assert(bits@ == unvisited.mark(Object::EmbedderObject(handle)));
                proof {
                    lemma_waiting_push_all(
                        queues@,
                        heap@.refs(Object::EmbedderObject(handle)),
                        visited_objects as int,
                        visited_embedder_objects as int,
                    );
                }
                heap.embedder_object(handle).mark_values(&mut queues);
            }
        }
    }
    proof {
        lemma_mark_done(
            heap@,
            roots@,
            bits@,
            queues@.waiting(visited_objects as int, visited_embedder_objects as int),
        );
    }
    bits
}

} // verus!
