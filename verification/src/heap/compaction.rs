//! Compaction lists: for each slot of an arena the place that it moves to.

use vstd::prelude::*;
use crate::ecmascript::embedder_object::EmbedderObject;
use crate::ecmascript::ordinary::OrdinaryObject;
use crate::ecmascript::types::Object;
use crate::heap::indexes::BaseIndex;

verus! {

/// How many of the first `i` slots are freed: those whose mark is not set.
pub open spec fn freed_before(marks: Seq<bool>, i: int) -> int
    decreases i,
{
    if i <= 0 {
        0
    } else {
        freed_before(marks, i - 1) + if marks[i - 1] {
            0int
        } else {
            1int
        }
    }
}

/// Where slot `i` stands after compaction: its place, less the freed slots
/// before it.
pub open spec fn new_position(marks: Seq<bool>, i: int) -> int {
    i - freed_before(marks, i)
}

/// How many slots survive.
pub open spec fn kept(marks: Seq<bool>) -> int {
    new_position(marks, marks.len() as int)
}

/// Neither the freed slots before a slot nor its new position are below
/// zero or beyond its place.
pub proof fn lemma_new_position_bounds(marks: Seq<bool>, i: int)
    requires
        0 <= i,
    ensures
        0 <= freed_before(marks, i) <= i,
        0 <= new_position(marks, i) <= i,
    decreases i,
{
    if i > 0 {
        lemma_new_position_bounds(marks, i - 1);
    }
}

/// No slot overtakes another.
pub proof fn lemma_new_position_monotonic(marks: Seq<bool>, i: int, j: int)
    requires
        0 <= i <= j,
    ensures
        new_position(marks, i) <= new_position(marks, j),
        freed_before(marks, i) <= freed_before(marks, j),
    decreases j - i,
{
    if i < j {
        lemma_new_position_monotonic(marks, i, j - 1);
    }
}

/// Of two survivors the one that stood first stands first after compaction,
/// and both stand among the slots that are kept.
pub proof fn lemma_order_preserved(marks: Seq<bool>, i: int, j: int)
    requires
        0 <= i < j < marks.len(),
        marks[i],
        marks[j],
    ensures
        0 <= new_position(marks, i) < new_position(marks, j) < kept(marks),
{
    lemma_new_position_bounds(marks, i);
    lemma_new_position_monotonic(marks, i + 1, j);
    lemma_new_position_monotonic(marks, j + 1, marks.len() as int);
    assert(new_position(marks, i + 1) == new_position(marks, i) + 1);
    assert(new_position(marks, j + 1) == new_position(marks, j) + 1);
}

/// A survivor stands among the slots that are kept.
pub proof fn lemma_survivor_position(marks: Seq<bool>, i: int)
    requires
        0 <= i < marks.len(),
        marks[i],
    ensures
        0 <= new_position(marks, i) < kept(marks) <= marks.len(),
{
    lemma_new_position_bounds(marks, i);
    lemma_new_position_bounds(marks, marks.len() as int);
    lemma_new_position_monotonic(marks, i + 1, marks.len() as int);
    assert(new_position(marks, i + 1) == new_position(marks, i) + 1);
}

/// Setting the mark of a freed slot leaves one freed slot less from there on.
pub proof fn lemma_freed_before_set(marks: Seq<bool>, i: int, n: int)
    requires
        0 <= i < marks.len(),
        0 <= n <= marks.len(),
        !marks[i],
    ensures
        freed_before(marks.update(i, true), n) == if n <= i {
            freed_before(marks, n)
        } else {
            freed_before(marks, n) - 1
        },
    decreases n,
{
    if n > 0 {
        lemma_freed_before_set(marks, i, n - 1);
    }
}

/// For each slot of one arena its place after compaction, or nothing where
/// the slot is removed.
#[derive(Debug)]
pub struct CompactionList {
    pub positions: Vec<Option<u32>>,
}

impl View for CompactionList {
    type V = Seq<Option<u32>>;

    open spec fn view(&self) -> Seq<Option<u32>> {
        self.positions@
    }
}

/// The table that the marks of an arena give.
pub open spec fn positions_of(marks: Seq<bool>) -> Seq<Option<u32>> {
    Seq::new(
        marks.len(),
        |i: int|
            if marks[i] {
                Some(new_position(marks, i) as u32)
            } else {
                None
            },
    )
}

impl CompactionList {
    /// Slot `index` survives, and the table says where it goes.
    pub open spec fn survives(self, index: BaseIndex) -> bool {
        0 <= index.index() < self@.len() && self@[index.index()] is Some
    }

    /// The number that names the new place of the slot that `index` names.
    pub open spec fn shifted(self, index: BaseIndex) -> BaseIndex {
        BaseIndex { value: (self@[index.index()]->0 + 1) as u32 }
    }

    /// Lays down the table for an arena whose marks are given: a surviving
    /// slot goes to its place less the freed slots before it.
    pub fn from_mark_bits(marks: &Vec<bool>) -> (list: CompactionList)
        requires
            marks@.len() <= u32::MAX,
        ensures
            list@ == positions_of(marks@),
    {
        let mut positions: Vec<Option<u32>> = Vec::new();
        let mut next: u32 = 0;
        let mut i: usize = 0;
        while i < marks.len()
            invariant
                i <= marks@.len() <= u32::MAX,
                next == new_position(marks@, i as int),
                positions@.len() == i,
                forall|k: int|
                    0 <= k < i ==> positions@[k] == if marks@[k] {
                        Some(new_position(marks@, k) as u32)
                    } else {
                        None
                    },
            decreases marks@.len() - i,
        {
            proof {
                lemma_new_position_bounds(marks@, i as int);
            }
            if marks[i] {
                positions.push(Some(next));
                next = next + 1;
            } else {
                positions.push(None);
            }
            i = i + 1;
        }
        assert(positions@ =~= positions_of(marks@));
        CompactionList { positions }
    }

    /// The new place of a surviving slot, or nothing for a slot that is
    /// removed or lies outside the arena.
    pub fn get(&self, index: usize) -> (r: Option<u32>)
        ensures
            r == if index < self@.len() {
                self@[index as int]
            } else {
                None
            },
    {
        if index < self.positions.len() {
            self.positions[index]
        } else {
            None
        }
    }

    /// Renumbers a handle's number in place. The number names a surviving
    /// slot.
    pub fn shift_index(&self, index: &mut BaseIndex)
        requires
            self.survives(*old(index)),
            forall|i: int| 0 <= i < self@.len() && self@[i] is Some ==> self@[i]->0 < u32::MAX,
        ensures
            *final(index) == self.shifted(*old(index)),
            final(index).index() == self@[old(index).index()]->0,
    {
        let slot = index.into_index();
        match self.positions[slot] {
            Some(position) => {
                *index = BaseIndex::from_u32_index(position);
            },
            None => {},
        }
    }
}

/// The compaction lists of all arenas.
#[derive(Debug)]
pub struct CompactionLists {
    pub objects: CompactionList,
    pub embedder_objects: CompactionList,
}

/// What the compaction lists of all arenas say.
pub struct CompactionModel {
    pub objects: Seq<Option<u32>>,
    pub embedder_objects: Seq<Option<u32>>,
}

impl View for CompactionLists {
    type V = CompactionModel;

    open spec fn view(&self) -> CompactionModel {
        CompactionModel { objects: self.objects@, embedder_objects: self.embedder_objects@ }
    }
}

impl CompactionModel {
    /// The slot that the handle names survives.
    pub open spec fn survives(self, o: Object) -> bool {
        match o {
            Object::Object(h) => 0 <= h.0.index() < self.objects.len()
                && self.objects[h.0.index()] is Some,
            Object::EmbedderObject(e) => 0 <= e.0.index() < self.embedder_objects.len()
                && self.embedder_objects[e.0.index()] is Some,
        }
    }

    /// Every one of the handles names a slot that survives.
    pub open spec fn all_survive(self, handles: Seq<Object>) -> bool {
        forall|i: int| 0 <= i < handles.len() ==> self.survives(#[trigger] handles[i])
    }

    /// The handle of an ordinary object after compaction.
    pub open spec fn shift_ordinary(self, h: OrdinaryObject) -> OrdinaryObject {
        OrdinaryObject(BaseIndex { value: (self.objects[h.0.index()]->0 + 1) as u32 })
    }

    /// The handle of an embedder object after compaction.
    pub open spec fn shift_embedder(self, e: EmbedderObject) -> EmbedderObject {
        EmbedderObject(BaseIndex { value: (self.embedder_objects[e.0.index()]->0 + 1) as u32 })
    }

    /// The handle after compaction.
    pub open spec fn shift(self, o: Object) -> Object {
        match o {
            Object::Object(h) => Object::Object(self.shift_ordinary(h)),
            Object::EmbedderObject(e) => Object::EmbedderObject(self.shift_embedder(e)),
        }
    }

    /// The handles after compaction, one for one.
    pub open spec fn shift_all(self, handles: Seq<Object>) -> Seq<Object> {
        handles.map_values(|o: Object| self.shift(o))
    }

    /// No new place is beyond what a handle can name.
    pub open spec fn wf(self) -> bool {
        &&& forall|i: int|
            0 <= i < self.objects.len() && self.objects[i] is Some ==> (
            #[trigger] self.objects[i])->0 < u32::MAX
        &&& forall|i: int|
            0 <= i < self.embedder_objects.len() && self.embedder_objects[i] is Some ==> (
            #[trigger] self.embedder_objects[i])->0 < u32::MAX
    }
}

/// The table that marks give sends no slot beyond what a handle can name.
pub proof fn lemma_positions_of_bounds(marks: Seq<bool>)
    requires
        marks.len() <= u32::MAX,
    ensures
        forall|i: int|
            0 <= i < marks.len() && marks[i] ==> (#[trigger] positions_of(marks)[i])->0
                == new_position(marks, i) && new_position(marks, i) < u32::MAX,
        forall|i: int| 0 <= i < marks.len() ==> (#[trigger] positions_of(marks)[i] is Some) == marks[i],
        positions_of(marks).len() == marks.len(),
{
    assert forall|i: int| 0 <= i < marks.len() && marks[i] implies (#[trigger] positions_of(
        marks,
    )[i])->0 == new_position(marks, i) && new_position(marks, i) < u32::MAX by {
        lemma_survivor_position(marks, i);
    }
}

} // verus!
