//! Prototype chains, and why they come to an end.

use vstd::prelude::*;
use crate::ecmascript::embedder_object::EmbedderObjectHeapData;
use crate::ecmascript::ordinary::{ObjectData, OrdinaryObject};
use crate::ecmascript::types::Object;
use crate::heap::gc::{
    collected,
    embedder_at,
    forwarding,
    lemma_collected_origin,
    lemma_collected_survivor,
    ordinary_at,
};
use crate::heap::indexes::BaseIndex;
use crate::heap::model::{lemma_reachable_step, HeapModel};

verus! {

impl HeapModel {
    /// The object `n` prototype links up from `o`; none where the chain has
    /// ended before.
    pub open spec fn ancestor(self, o: Object, n: nat) -> Option<Object>
        decreases n,
    {
        if n == 0 {
            Some(o)
        } else {
            match self.prototype(o) {
                None => None,
                Some(p) => self.ancestor(p, (n - 1) as nat),
            }
        }
    }

    /// The prototype chain of `o` comes to an end.
    pub open spec fn finite_chain(self, o: Object) -> bool {
        exists|n: nat| self.ancestor(o, n) is None
    }

    /// No prototype chain runs in a circle.
    pub open spec fn acyclic(self) -> bool {
        forall|o: Object| #[trigger] self.finite_chain(o)
    }

    /// `x` is not on the prototype chain of `o`.
    pub open spec fn chain_avoids(self, o: Object, x: Object) -> bool {
        forall|n: nat| self.ancestor(o, n) != Some(x)
    }
}

/// A chain that has ended stays ended.
pub proof fn lemma_ancestor_ended(heap: HeapModel, o: Object, n: nat, m: nat)
    requires
        heap.ancestor(o, n) is None,
        n <= m,
    ensures
        heap.ancestor(o, m) is None,
    decreases n,
{
    if n > 0 {
        match heap.prototype(o) {
            None => {},
            Some(p) => {
                lemma_ancestor_ended(heap, p, (n - 1) as nat, (m - 1) as nat);
            },
        }
    }
}

/// One link further up the chain is the prototype of where the chain stood.
pub proof fn lemma_ancestor_next(heap: HeapModel, o: Object, n: nat)
    ensures
        heap.ancestor(o, n + 1) == match heap.ancestor(o, n) {
            Some(x) => heap.prototype(x),
            None => None,
        },
    decreases n,
{
    match heap.prototype(o) {
        None => {
            assert(heap.ancestor(o, n + 1) is None);
        },
        Some(p) => {
            assert(heap.ancestor(o, n + 1) == heap.ancestor(p, n));
            if n > 0 {
                lemma_ancestor_next(heap, p, (n - 1) as nat);
                assert(heap.ancestor(o, n) == heap.ancestor(p, (n - 1) as nat));
            } else {
                assert(heap.ancestor(p, 0) == Some(p));
            }
        },
    }
}

/// In a heap without dangling handles, what is on the chain of an object
/// that resolves does resolve.
pub proof fn lemma_ancestor_occupied(heap: HeapModel, o: Object, n: nat)
    requires
        heap.closed(),
        heap.occupied(o),
        heap.ancestor(o, n) is Some,
    ensures
        heap.occupied(heap.ancestor(o, n)->0),
    decreases n,
{
    if n > 0 {
        let p = heap.prototype(o)->0;
        lemma_prototype_points(heap, o);
        lemma_ancestor_occupied(heap, p, (n - 1) as nat);
    }
}

/// The payload of an object holds its prototype.
pub proof fn lemma_prototype_points(heap: HeapModel, o: Object)
    requires
        heap.prototype(o) is Some,
    ensures
        heap.points_to(o, heap.prototype(o)->0),
{
    assert(heap.refs(o)[0] == heap.prototype(o)->0);
}

/// Where a chain stays clear of the one object whose prototype link
/// differs, it is the same chain in both heaps.
pub proof fn lemma_ancestor_avoiding(a: HeapModel, b: HeapModel, o: Object, x: Object, n: nat)
    requires
        forall|z: Object| z != o ==> a.prototype(z) == b.prototype(z),
        a.chain_avoids(x, o),
    ensures
        b.ancestor(x, n) == a.ancestor(x, n),
    decreases n,
{
    if n > 0 {
        assert(a.ancestor(x, 0) != Some(o));
        match a.prototype(x) {
            None => {},
            Some(y) => {
                assert forall|m: nat| a.ancestor(y, m) != Some(o) by {
                    assert(a.ancestor(x, m + 1) == a.ancestor(y, m));
                }
                lemma_ancestor_avoiding(a, b, o, y, (n - 1) as nat);
            },
        }
    }
}

/// A chain that ended before the link of `o` changed ends afterwards.
proof fn lemma_relinked_chain_ends(
    a: HeapModel,
    b: HeapModel,
    o: Object,
    x: Object,
    n: nat,
)
    requires
        a.acyclic(),
        forall|z: Object| z != o ==> a.prototype(z) == b.prototype(z),
        b.prototype(o) is Some ==> a.chain_avoids(b.prototype(o)->0, o),
        a.ancestor(x, n) is None,
    ensures
        b.finite_chain(x),
    decreases n,
{
    if x == o {
        match b.prototype(o) {
            None => {
                assert(b.ancestor(o, 1) is None);
            },
            Some(p) => {
                assert(a.finite_chain(p));
                let m = choose|m: nat| a.ancestor(p, m) is None;
                lemma_ancestor_avoiding(a, b, o, p, m);
                assert(b.ancestor(o, m + 1) == b.ancestor(p, m));
            },
        }
    } else {
        match a.prototype(x) {
            None => {
                assert(b.ancestor(x, 1) is None);
            },
            Some(y) => {
                lemma_relinked_chain_ends(a, b, o, y, (n - 1) as nat);
                let m = choose|m: nat| b.ancestor(y, m) is None;
                assert(b.ancestor(x, m + 1) == b.ancestor(y, m));
            },
        }
    }
}

/// A heap stays free of circles where the prototype link of one object
/// changes, and the chain from its new prototype did not pass through it.
pub proof fn lemma_relinked_acyclic(a: HeapModel, b: HeapModel, o: Object)
    requires
        a.acyclic(),
        forall|z: Object| z != o ==> a.prototype(z) == b.prototype(z),
        b.prototype(o) is Some ==> a.chain_avoids(b.prototype(o)->0, o),
    ensures
        b.acyclic(),
{
    assert forall|x: Object| #[trigger] b.finite_chain(x) by {
        assert(a.finite_chain(x));
        let n = choose|n: nat| a.ancestor(x, n) is None;
        lemma_relinked_chain_ends(a, b, o, x, n);
    }
}

/// A heap stays free of circles where no prototype link changes.
pub proof fn lemma_same_links_acyclic(a: HeapModel, b: HeapModel)
    requires
        a.acyclic(),
        forall|z: Object| a.prototype(z) == b.prototype(z),
    ensures
        b.acyclic(),
{
    // the handle that names no slot has no prototype link to change
    let o = Object::Object(OrdinaryObject(BaseIndex { value: 0 }));
    assert(a.prototype(o) is None);
    lemma_relinked_acyclic(a, b, o);
}

/// In a heap without dangling handles the chain of an object that resolves
/// stays clear of every handle that does not.
pub proof fn lemma_chain_avoids_unoccupied(heap: HeapModel, o: Object, x: Object)
    requires
        heap.closed(),
        heap.occupied(o),
        !heap.occupied(x),
    ensures
        heap.chain_avoids(o, x),
{
    assert forall|n: nat| heap.ancestor(o, n) != Some(x) by {
        if heap.ancestor(o, n) is Some {
            lemma_ancestor_occupied(heap, o, n);
        }
    }
}

/// A new ordinary object whose handles resolve leaves the heap free of
/// circles.
pub proof fn lemma_with_object_acyclic(heap: HeapModel, data: ObjectData)
    requires
        heap.wf(),
        heap.acyclic(),
        heap.objects.len() < u32::MAX,
        heap.holds_all(data.refs()),
    ensures
        heap.with_object(data).acyclic(),
{
    let after = heap.with_object(data);
    let o = ordinary_at(heap.objects.len() as int);
    assert forall|z: Object| z != o implies heap.prototype(z) == after.prototype(z) by {
        if after.occupied(z) && !heap.occupied(z) {
            if let Object::Object(h) = z {
                assert(h.0.value == heap.objects.len() + 1);
            }
        }
    }
    if after.prototype(o) is Some {
        let p = after.prototype(o)->0;
        assert(data.refs()[0] == p);
        lemma_chain_avoids_unoccupied(heap, p, o);
    }
    lemma_relinked_acyclic(heap, after, o);
}

/// A new embedder object whose handles resolve leaves the heap free of
/// circles.
pub proof fn lemma_with_embedder_object_acyclic(heap: HeapModel, data: EmbedderObjectHeapData)
    requires
        heap.wf(),
        heap.acyclic(),
        heap.embedder_objects.len() < u32::MAX,
        heap.holds_all(data.refs()),
    ensures
        heap.with_embedder_object(data).acyclic(),
{
    let after = heap.with_embedder_object(data);
    let o = embedder_at(heap.embedder_objects.len() as int);
    assert forall|z: Object| z != o implies heap.prototype(z) == after.prototype(z) by {
        if after.occupied(z) && !heap.occupied(z) {
            if let Object::EmbedderObject(e) = z {
                assert(e.0.value == heap.embedder_objects.len() + 1);
            }
        }
    }
    if after.prototype(o) is Some {
        let p = after.prototype(o)->0;
        assert(data.refs()[0] == p);
        lemma_chain_avoids_unoccupied(heap, p, o);
    }
    lemma_relinked_acyclic(heap, after, o);
}

/// The chain of a survivor is as long after the collection as before.
proof fn lemma_collected_chain_ends(heap: HeapModel, roots: Seq<Object>, o: Object, n: nat)
    requires
        heap.wf(),
        heap.holds_all(roots),
        heap.reachable(roots, o),
        heap.ancestor(o, n) is None,
    ensures
        collected(heap, roots).ancestor(forwarding(heap, roots).shift(o), n) is None,
    decreases n,
{
    let after = collected(heap, roots);
    let c = forwarding(heap, roots);
    lemma_collected_survivor(heap, roots, o);
    assert(after.prototype(c.shift(o)) == c.shift_option(heap.prototype(o)));
    match heap.prototype(o) {
        None => {},
        Some(p) => {
            lemma_prototype_points(heap, o);
            lemma_reachable_step(heap, roots, o, p);
            lemma_collected_chain_ends(heap, roots, p, (n - 1) as nat);
        },
    }
}

/// A collection leaves the heap free of circles.
pub proof fn lemma_collected_acyclic(heap: HeapModel, roots: Seq<Object>)
    requires
        heap.wf(),
        heap.holds_all(roots),
        heap.acyclic(),
    ensures
        collected(heap, roots).acyclic(),
{
    let after = collected(heap, roots);
    assert forall|x: Object| #[trigger] after.finite_chain(x) by {
        if after.occupied(x) {
            let o = lemma_collected_origin(heap, roots, x);
            assert(heap.finite_chain(o));
            let n = choose|n: nat| heap.ancestor(o, n) is None;
            lemma_collected_chain_ends(heap, roots, o, n);
        } else {
            assert(after.ancestor(x, 1) is None);
        }
    }
}

} // verus!
