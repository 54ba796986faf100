//! The internal methods of objects: the ordinary algorithms, and the
//! dispatch from a handle of any kind to the methods of its kind.

use vstd::prelude::*;
use crate::ecmascript::chain::{
    lemma_ancestor_ended,
    lemma_ancestor_next,
    lemma_prototype_points,
    lemma_relinked_acyclic,
    lemma_same_links_acyclic,
};
use crate::ecmascript::embedder_object::EmbedderObject;
use crate::ecmascript::execution::Agent;
use crate::ecmascript::ordinary::{property_refs, ObjectData, OrdinaryObject, PropertyEntry};
use crate::ecmascript::properties::{
    define_in,
    delete_in,
    descriptor_of,
    distinct_keys,
    find_key,
    keys_of,
    lemma_define_in,
    lemma_delete_in,
};
use crate::ecmascript::slots::empty_backing_object;
use crate::ecmascript::types::{
    option_refs,
    JsError,
    JsResult,
    Object,
    PropertyDescriptor,
    PropertyKey,
    Value,
};
use crate::engine::GcScope;
use crate::heap::indexes::BaseIndex;
use crate::heap::lemma_with_object_wf;
use crate::heap::model::HeapModel;

verus! {

/// The descriptor that sets a value and nothing else.
pub open spec fn value_descriptor(value: Value) -> PropertyDescriptor {
    PropertyDescriptor { value: Some(value), writable: None, enumerable: None, configurable: None }
}

/// The descriptor of a new property that a plain assignment creates: the
/// value, with every attribute on.
pub open spec fn data_descriptor(value: Value) -> PropertyDescriptor {
    PropertyDescriptor {
        value: Some(value),
        writable: Some(true),
        enumerable: Some(true),
        configurable: Some(true),
    }
}

impl HeapModel {
    /// The object's own property named `key`, if it has one.
    pub open spec fn own_property(self, o: Object, key: PropertyKey) -> Option<PropertyEntry> {
        match find_key(self.properties(o), key) {
            Some(i) => Some(self.properties(o)[i]),
            None => None,
        }
    }

    /// `n` links up the prototype chain of `o` stands the first object
    /// that has a property named `key`.
    pub open spec fn owner_at(self, o: Object, key: PropertyKey, n: nat) -> bool {
        &&& self.owns_at(o, key, n)
        &&& forall|m: nat| m < n ==> !self.owns_at(o, key, m)
    }

    /// `n` links up the prototype chain of `o` stands an object that has a
    /// property named `key`.
    pub open spec fn owns_at(self, o: Object, key: PropertyKey, n: nat) -> bool {
        self.ancestor(o, n) is Some && self.own_property(self.ancestor(o, n)->0, key) is Some
    }

    /// The property named `key` that `o` has or inherits: that of the first
    /// object on its prototype chain that has one.
    pub open spec fn lookup(self, o: Object, key: PropertyKey) -> Option<PropertyEntry> {
        if exists|n: nat| self.owner_at(o, key, n) {
            let n = choose|n: nat| self.owner_at(o, key, n);
            self.own_property(self.ancestor(o, n)->0, key)
        } else {
            None
        }
    }

    /// What a request to change the prototype link does: nothing where the
    /// link is what is asked for; nothing where the object is not
    /// extensible, or where the new prototype has the object on its own
    /// chain, and then it is refused; else the link is set.
    pub open spec fn set_prototype_of(self, o: Object, prototype: Option<Object>) -> (
        HeapModel,
        bool,
    ) {
        if prototype == self.prototype(o) {
            (self, true)
        } else if !self.extensible(o) {
            (self, false)
        } else if prototype is Some && !self.chain_avoids(prototype->0, o) {
            (self, false)
        } else {
            (self.with_prototype(o, prototype), true)
        }
    }

    /// The handle that the next ordinary object gets.
    pub open spec fn next_object(self) -> OrdinaryObject {
        OrdinaryObject(BaseIndex { value: (self.objects.len() + 1) as u32 })
    }

    /// The ordinary object that keeps the properties of `o` once it has
    /// some: the one that it has, or the next to be allocated.
    pub open spec fn store_of(self, o: Object) -> OrdinaryObject {
        match self.backing_object(o) {
            Some(b) => b,
            None => self.next_object(),
        }
    }

    /// The heap in which `o` has an object to keep its properties: as it
    /// is where it has one, else with a new backing object without
    /// properties.
    pub open spec fn with_store(self, o: Object) -> HeapModel {
        match o {
            Object::Object(_) => self,
            Object::EmbedderObject(e) => match self.embedder_object(e).backing_object {
                Some(_) => self,
                None => self.with_object(empty_backing_object()).with_backing_object(
                    e,
                    self.next_object(),
                ),
            },
        }
    }

    /// The heap after a property of `o` was defined or changed, or the
    /// failure. An object without a place for properties gets one with its
    /// first property.
    pub open spec fn define_own_property(
        self,
        o: Object,
        key: PropertyKey,
        desc: PropertyDescriptor,
    ) -> Result<HeapModel, JsError> {
        match define_in(self.properties(o), self.extensible(o), key, desc) {
            Err(e) => Err(e),
            Ok(properties) => Ok(self.with_store(o).with_properties(self.store_of(o), properties)),
        }
    }

    /// The heap after a property of `o` was deleted, and whether it is
    /// gone.
    pub open spec fn delete(self, o: Object, key: PropertyKey) -> (HeapModel, bool) {
        match self.backing_object(o) {
            None => (self, true),
            Some(b) => match delete_in(self.object(b).properties, key) {
                Some(properties) => (self.with_properties(b, properties), true),
                None => (self, false),
            },
        }
    }

    /// The heap after `value` was assigned to the property named `key` of
    /// `o`, for the receiver of the assignment, and whether it was
    /// assigned; or the failure. The assignment is refused where the
    /// property that `o` has or inherits is not writable, where the
    /// receiver is no object, and where the receiver's own property is not
    /// writable; else the value goes to the receiver's own property, which
    /// is created with every attribute on where there was none.
    pub open spec fn set(
        self,
        o: Object,
        key: PropertyKey,
        value: Value,
        receiver: Value,
    ) -> Result<(HeapModel, bool), JsError> {
        if self.lookup(o, key) is Some && !self.lookup(o, key)->0.writable {
            Ok((self, false))
        } else {
            match receiver.as_object() {
                None => Ok((self, false)),
                Some(r) => match self.own_property(r, key) {
                    Some(existing) => if !existing.writable {
                        Ok((self, false))
                    } else {
                        match self.define_own_property(r, key, value_descriptor(value)) {
                            Ok(heap) => Ok((heap, true)),
                            Err(e) => Err(e),
                        }
                    },
                    None => match self.define_own_property(r, key, data_descriptor(value)) {
                        Ok(heap) => Ok((heap, true)),
                        Err(e) => Err(e),
                    },
                },
            }
        }
    }

    /// The handle that the value holds, if it holds one, resolves.
    pub open spec fn holds_value(self, value: Value) -> bool {
        match value.as_object() {
            Some(o) => self.occupied(o),
            None => true,
        }
    }

    /// The handle of the link, if there is one, resolves.
    pub open spec fn holds_link(self, link: Option<Object>) -> bool {
        match link {
            Some(o) => self.occupied(o),
            None => true,
        }
    }
}

/// The payload of an ordinary object holds its prototype and what its
/// properties hold, and nothing else.
pub proof fn lemma_object_refs(data: ObjectData, o: Object)
    ensures
        data.refs().contains(o) <==> data.prototype == Some(o) || property_refs(
            data.properties,
        ).contains(o),
{
    let front = option_refs(data.prototype);
    let back = property_refs(data.properties);
    if data.refs().contains(o) {
        let i = choose|i: int| 0 <= i < data.refs().len() && data.refs()[i] == o;
        if i < front.len() {
            assert(front[i] == o);
        } else {
            assert(back[i - front.len()] == o);
        }
    }
    if data.prototype == Some(o) {
        assert(data.refs()[0] == o);
    }
    if back.contains(o) {
        let i = choose|i: int| 0 <= i < back.len() && back[i] == o;
        assert(data.refs()[front.len() + i] == o);
    }
}

/// A heap stays in order where one object changes, the payloads of the
/// others stay, and the changed payload holds no handle that dangles.
pub proof fn lemma_changed_wf(a: HeapModel, b: HeapModel, o: Object)
    requires
        a.wf(),
        a.occupied(o),
        b.objects.len() == a.objects.len(),
        b.embedder_objects.len() == a.embedder_objects.len(),
        forall|z: Object| a.occupied(z) <==> b.occupied(z),
        forall|z: Object| z != o ==> a.refs(z) == b.refs(z),
        b.holds_all(b.refs(o)),
        forall|i: int|
            0 <= i < b.objects.len() && b.objects[i] is Some ==> (#[trigger] b.objects[i])->0.wf(),
    ensures
        b.wf(),
{
    assert forall|x: Object, y: Object| #[trigger] b.points_to(x, y) implies b.occupied(y) by {
        if x == o {
            let i = choose|i: int| 0 <= i < b.refs(o).len() && b.refs(o)[i] == y;
            assert(b.occupied(b.refs(o)[i]));
        } else {
            assert(a.points_to(x, y));
        }
    }
}

/// To open or close an object to new properties leaves the heap in order
/// and every prototype link as it was.
pub proof fn lemma_with_extensible(heap: HeapModel, o: Object, value: bool)
    requires
        heap.wf(),
        heap.occupied(o),
    ensures
        heap.with_extensible(o, value).wf(),
        heap.with_extensible(o, value).extensible(o) == value,
        forall|z: Object| heap.with_extensible(o, value).prototype(z) == heap.prototype(z),
        forall|z: Object| heap.with_extensible(o, value).occupied(z) == heap.occupied(z),
        heap.acyclic() ==> heap.with_extensible(o, value).acyclic(),
{
    let after = heap.with_extensible(o, value);
    assert forall|z: Object| after.refs(z) == heap.refs(z) by {
        if z == o {
            match o {
                Object::Object(h) => {
                    assert(after.object(h).refs() == heap.object(h).refs());
                },
                Object::EmbedderObject(e) => {
                    assert(after.embedder_object(e).refs() == heap.embedder_object(e).refs());
                },
            }
        }
    }
    assert forall|i: int| 0 <= i < after.refs(o).len() implies after.occupied(
        #[trigger] after.refs(o)[i],
    ) by {
        assert(heap.points_to(o, heap.refs(o)[i]));
    }
    lemma_changed_wf(heap, after, o);
    if heap.acyclic() {
        lemma_same_links_acyclic(heap, after);
    }
}

/// To set the prototype link of an object leaves the heap in order, where
/// the new prototype resolves.
pub proof fn lemma_with_prototype(heap: HeapModel, o: Object, prototype: Option<Object>)
    requires
        heap.wf(),
        heap.occupied(o),
        heap.holds_link(prototype),
    ensures
        heap.with_prototype(o, prototype).wf(),
        heap.with_prototype(o, prototype).prototype(o) == prototype,
        forall|z: Object| z != o ==> heap.with_prototype(o, prototype).prototype(z)
            == heap.prototype(z),
        forall|z: Object| heap.with_prototype(o, prototype).occupied(z) == heap.occupied(z),
{
    let after = heap.with_prototype(o, prototype);
    assert forall|i: int| 0 <= i < after.refs(o).len() implies after.occupied(
        #[trigger] after.refs(o)[i],
    ) by {
        let y = after.refs(o)[i];
        match o {
            Object::Object(h) => {
                lemma_object_refs(after.object(h), y);
                lemma_object_refs(heap.object(h), y);
                if prototype != Some(y) {
                    assert(heap.points_to(o, y));
                }
            },
            Object::EmbedderObject(e) => {
                if prototype != Some(y) {
                    assert(heap.embedder_object(e).backing_object == Some(y->Object_0));
                    let old_refs = heap.embedder_object(e).refs();
                    assert(old_refs[old_refs.len() - 1] == y);
                    assert(heap.points_to(o, y));
                }
            },
        }
    }
    lemma_changed_wf(heap, after, o);
}

/// To replace the properties of an ordinary object leaves the heap in
/// order and every prototype link as it was, where no name occurs twice
/// and every handle among the new properties resolves.
pub proof fn lemma_with_properties(
    heap: HeapModel,
    h: OrdinaryObject,
    properties: Seq<PropertyEntry>,
)
    requires
        heap.wf(),
        heap.occupied(Object::Object(h)),
        distinct_keys(properties),
        forall|y: Object| property_refs(properties).contains(y) ==> heap.occupied(y),
    ensures
        heap.with_properties(h, properties).wf(),
        forall|z: Object| heap.with_properties(h, properties).prototype(z) == heap.prototype(z),
        forall|z: Object| heap.with_properties(h, properties).occupied(z) == heap.occupied(z),
        heap.acyclic() ==> heap.with_properties(h, properties).acyclic(),
{
    let after = heap.with_properties(h, properties);
    let o = Object::Object(h);
    assert forall|i: int| 0 <= i < after.refs(o).len() implies after.occupied(
        #[trigger] after.refs(o)[i],
    ) by {
        let y = after.refs(o)[i];
        assert(after.object(h).refs().contains(y));
        lemma_object_refs(after.object(h), y);
        lemma_object_refs(heap.object(h), y);
        if after.object(h).prototype == Some(y) {
            assert(heap.refs(o).contains(y));
            assert(heap.points_to(o, y));
        } else {
            assert(property_refs(properties).contains(y));
        }
        assert(heap.occupied(y));
    }
    assert forall|i: int| 0 <= i < after.objects.len() && after.objects[i] is Some implies (
    #[trigger] after.objects[i])->0.wf() by {
        if i != h.0.index() {
            assert(heap.objects[i]->0.wf());
        }
    }
    lemma_changed_wf(heap, after, o);
    if heap.acyclic() {
        lemma_same_links_acyclic(heap, after);
    }
}

/// To give an object a place for its properties leaves the heap in order,
/// every prototype link as it was, and the object without properties as
/// before.
pub proof fn lemma_with_store(heap: HeapModel, o: Object)
    requires
        heap.wf(),
        heap.occupied(o),
        heap.backing_object(o) is None ==> heap.objects.len() < u32::MAX,
    ensures
        heap.with_store(o).wf(),
        heap.with_store(o).occupied(Object::Object(heap.store_of(o))),
        heap.with_store(o).backing_object(o) == Some(heap.store_of(o)),
        heap.with_store(o).object(heap.store_of(o)).properties == heap.properties(o),
        heap.with_store(o).extensible(o) == heap.extensible(o),
        forall|z: Object| heap.occupied(z) ==> heap.with_store(o).occupied(z),
        forall|z: Object| heap.with_store(o).prototype(z) == heap.prototype(z),
        heap.acyclic() ==> heap.with_store(o).acyclic(),
{
    let after = heap.with_store(o);
    if heap.backing_object(o) is None {
        let e = o->EmbedderObject_0;
        let fresh = heap.next_object();
        let grown = heap.with_object(empty_backing_object());
        assert(empty_backing_object().refs() =~= Seq::<Object>::empty());
        lemma_with_object_wf(heap, empty_backing_object());
        assert(grown.occupied(Object::Object(fresh)));
        assert forall|z: Object| grown.prototype(z) == heap.prototype(z) by {
            if grown.occupied(z) && !heap.occupied(z) {
                assert(z == Object::Object(fresh));
            }
        }
        assert forall|z: Object| z != o implies grown.refs(z) == after.refs(z) by {}
        assert forall|i: int| 0 <= i < after.refs(o).len() implies after.occupied(
            #[trigger] after.refs(o)[i],
        ) by {
            let y = after.refs(o)[i];
            if y != Object::Object(fresh) {
                assert(heap.embedder_object(e).prototype == Some(y));
                assert(heap.refs(o)[0] == y);
                assert(heap.points_to(o, y));
            }
        }
        lemma_changed_wf(grown, after, o);
        if heap.acyclic() {
            lemma_same_links_acyclic(heap, after);
        }
    } else {
        match o {
            Object::Object(h) => {},
            Object::EmbedderObject(e) => {
                let b = heap.embedder_object(e).backing_object->0;
                let refs = heap.embedder_object(e).refs();
                assert(refs[refs.len() - 1] == Object::Object(b));
                assert(heap.points_to(o, Object::Object(b)));
            },
        }
    }
}

/// To define a property leaves the heap in order and free of circles,
/// where the descriptor's value holds no handle that dangles.
pub proof fn lemma_define_own_property(
    heap: HeapModel,
    o: Object,
    key: PropertyKey,
    desc: PropertyDescriptor,
)
    requires
        heap.wf(),
        heap.occupied(o),
        desc.value is Some ==> heap.holds_value(desc.value->0),
        heap.backing_object(o) is None ==> heap.objects.len() < u32::MAX,
        heap.define_own_property(o, key, desc) is Ok,
    ensures
        heap.define_own_property(o, key, desc)->Ok_0.wf(),
        heap.acyclic() ==> heap.define_own_property(o, key, desc)->Ok_0.acyclic(),
        forall|z: Object|
            heap.occupied(z) ==> heap.define_own_property(o, key, desc)->Ok_0.occupied(z),
        forall|z: Object|
            heap.define_own_property(o, key, desc)->Ok_0.prototype(z) == heap.prototype(z),
{
    lemma_with_store(heap, o);
    let stored = heap.with_store(o);
    let store = heap.store_of(o);
    let properties = define_in(heap.properties(o), heap.extensible(o), key, desc)->Ok_0;
    lemma_store_properties(heap, o);
    lemma_define_in(heap.properties(o), heap.extensible(o), key, desc);
    assert forall|y: Object| property_refs(properties).contains(y) implies stored.occupied(y) by {
        if property_refs(heap.properties(o)).contains(y) {
            let b = heap.backing_object(o)->0;
            lemma_object_refs(heap.object(b), y);
            assert(heap.points_to(Object::Object(b), y));
        }
    }
    lemma_with_properties(stored, store, properties);
}

/// The properties of an object are in order, and the object that keeps
/// them resolves.
pub proof fn lemma_store_properties(heap: HeapModel, o: Object)
    requires
        heap.wf(),
        heap.occupied(o),
    ensures
        distinct_keys(heap.properties(o)),
        heap.backing_object(o) is Some ==> heap.occupied(
            Object::Object(heap.backing_object(o)->0),
        ),
{
    match o {
        Object::Object(h) => {
            assert(heap.objects[h.0.index()]->0.wf());
        },
        Object::EmbedderObject(e) => {
            match heap.embedder_object(e).backing_object {
                Some(b) => {
                    let refs = heap.embedder_object(e).refs();
                    assert(refs[refs.len() - 1] == Object::Object(b));
                    assert(heap.points_to(o, Object::Object(b)));
                    assert(heap.objects[b.0.index()]->0.wf());
                },
                None => {},
            }
        },
    }
}

/// An object that was closed to new properties says that it is closed.
pub proof fn lemma_prevented_extensions(heap: HeapModel, o: Object)
    requires
        heap.occupied(o),
    ensures
        heap.with_extensible(o, false).occupied(o),
        !heap.with_extensible(o, false).extensible(o),
{
}

/// An object that took a new prototype has it: where the request to set
/// the prototype is granted, the prototype is the one that was asked for.
pub proof fn lemma_prototype_set(heap: HeapModel, o: Object, prototype: Option<Object>)
    requires
        heap.occupied(o),
        heap.set_prototype_of(o, prototype).1,
    ensures
        heap.set_prototype_of(o, prototype).0.occupied(o),
        heap.set_prototype_of(o, prototype).0.prototype(o) == prototype,
{
}

/// A request to set the prototype is granted where the object has that
/// prototype already, and else where it is extensible and does not stand on
/// the chain of the new prototype; in no other case.
pub proof fn lemma_prototype_set_granted(heap: HeapModel, o: Object, prototype: Option<Object>)
    ensures
        heap.set_prototype_of(o, prototype).1 <==> prototype == heap.prototype(o) || (
        heap.extensible(o) && (prototype is Some ==> heap.chain_avoids(prototype->0, o))),
{
}

/// To define a property that an object has not, on an object that is not
/// extensible, is a failure that the script sees, and changes nothing.
pub proof fn lemma_define_on_closed_object(
    heap: HeapModel,
    o: Object,
    key: PropertyKey,
    desc: PropertyDescriptor,
)
    requires
        !heap.extensible(o),
        heap.own_property(o, key) is None,
    ensures
        heap.define_own_property(o, key, desc) == Err::<HeapModel, JsError>(
            JsError::NotExtensible,
        ),
{
}

impl Agent {
    /// Defines or changes a property among those that the ordinary object
    /// `store` keeps. `extensible` says whether a new property may be
    /// added.
    pub fn define_in_store(
        &mut self,
        store: OrdinaryObject,
        extensible: bool,
        key: PropertyKey,
        desc: PropertyDescriptor,
    ) -> (r: JsResult<bool>)
        requires
            old(self)@.occupied(Object::Object(store)),
        ensures
            match define_in(old(self)@.object(store).properties, extensible, key, desc) {
                Ok(properties) => r == Ok::<bool, JsError>(true) && final(self)@ == old(
                    self,
                )@.with_properties(store, properties),
                Err(e) => r == Err::<bool, JsError>(e) && final(self)@ == old(self)@,
            },
            final(self).counters() == old(self).counters(),
    {
        let ghost before = self@;
        let data = self.object_mut(store);
        let ghost unchanged = data@;
        let r = data.define(extensible, key, desc);
        proof {
            if r is Err {
                assert(self@.objects =~= before.objects);
            } else {
                assert(self@.object(store) == (ObjectData {
                    properties: self@.object(store).properties,
                    ..unchanged
                }));
            }
        }
        r
    }

    /// Deletes a property among those that the ordinary object `store`
    /// keeps, and says whether it is gone.
    pub fn delete_in_store(&mut self, store: OrdinaryObject, key: PropertyKey) -> (gone: bool)
        requires
            old(self)@.occupied(Object::Object(store)),
        ensures
            match delete_in(old(self)@.object(store).properties, key) {
                Some(properties) => gone && final(self)@ == old(self)@.with_properties(
                    store,
                    properties,
                ),
                None => !gone && final(self)@ == old(self)@,
            },
            final(self).counters() == old(self).counters(),
    {
        let ghost before = self@;
        let data = self.object_mut(store);
        let ghost unchanged = data@;
        let gone = data.delete(key);
        proof {
            if !gone {
                assert(self@.objects =~= before.objects);
            } else {
                assert(self@.object(store) == (ObjectData {
                    properties: self@.object(store).properties,
                    ..unchanged
                }));
            }
        }
        gone
    }
}

impl Object {
    /// The object's own property named `key`, if it has one.
    pub fn own_property(self, agent: &Agent, key: PropertyKey) -> (entry: Option<PropertyEntry>)
        requires
            agent@.wf(),
            agent@.occupied(self),
        ensures
            entry == agent@.own_property(self, key),
    {
        proof {
            lemma_store_properties(agent@, self);
        }
        match self.get_backing_object(agent) {
            Some(b) => agent.object(b).get(key),
            None => None,
        }
    }

    /// The property named `key` that the object has or inherits: that of
    /// the first object on its prototype chain that has one.
    pub fn lookup(self, agent: &Agent, key: PropertyKey) -> (entry: Option<PropertyEntry>)
        requires
            agent@.wf(),
            agent@.acyclic(),
            agent@.occupied(self),
        ensures
            entry == agent@.lookup(self, key),
    {
        let ghost heap = agent@;
        let ghost end: nat = choose|n: nat| heap.ancestor(self, n) is None;
        let ghost mut depth: nat = 0;
        let mut current = self;
        proof {
            assert(heap.finite_chain(self));
        }
        loop
            invariant
                heap == agent@,
                heap.wf(),
                heap.occupied(current),
                heap.ancestor(self, depth) == Some(current),
                heap.ancestor(self, end) is None,
                forall|m: nat| m < depth ==> !heap.owns_at(self, key, m),
            decreases end - depth,
        {
            proof {
                if depth >= end {
                    lemma_ancestor_ended(heap, self, end, depth);
                }
                lemma_ancestor_next(heap, self, depth);
            }
            match current.own_property(agent, key) {
                Some(entry) => {
                    proof {
                        assert(heap.owner_at(self, key, depth));
                        let n = choose|n: nat| heap.owner_at(self, key, n);
                        if n < depth {
                            assert(!heap.owns_at(self, key, n));
                        }
                        if depth < n {
                            assert(!heap.owns_at(self, key, depth));
                        }
                    }
                    return Some(entry);
                },
                None => {},
            }
            match current.internal_prototype(agent) {
                None => {
                    proof {
                        assert forall|n: nat| !heap.owner_at(self, key, n) by {
                            if n > depth {
                                lemma_ancestor_ended(heap, self, depth + 1, n);
                            }
                        }
                    }
                    return None;
                },
                Some(parent) => {
                    proof {
                        lemma_prototype_points(heap, current);
                        depth = depth + 1;
                    }
                    current = parent;
                },
            }
        }
    }

    /// Whether `self` stands on the prototype chain that starts at
    /// `start`.
    pub fn on_chain_of(self, agent: &Agent, start: Object) -> (found: bool)
        requires
            agent@.wf(),
            agent@.acyclic(),
            agent@.occupied(start),
        ensures
            found == !agent@.chain_avoids(start, self),
    {
        let ghost heap = agent@;
        let ghost end: nat = choose|n: nat| heap.ancestor(start, n) is None;
        let ghost mut depth: nat = 0;
        let mut current = start;
        proof {
            assert(heap.finite_chain(start));
        }
        loop
            invariant
                heap == agent@,
                heap.wf(),
                heap.occupied(current),
                heap.ancestor(start, depth) == Some(current),
                heap.ancestor(start, end) is None,
                forall|m: nat| m < depth ==> heap.ancestor(start, m) != Some(self),
            decreases end - depth,
        {
            proof {
                if depth >= end {
                    lemma_ancestor_ended(heap, start, end, depth);
                }
                lemma_ancestor_next(heap, start, depth);
            }
            if current == self {
                return true;
            }
            match current.internal_prototype(agent) {
                None => {
                    proof {
                        assert forall|n: nat| heap.ancestor(start, n) != Some(self) by {
                            if n > depth {
                                lemma_ancestor_ended(heap, start, depth + 1, n);
                            }
                        }
                    }
                    return false;
                },
                Some(parent) => {
                    proof {
                        lemma_prototype_points(heap, current);
                        depth = depth + 1;
                    }
                    current = parent;
                },
            }
        }
    }
}

/// The prototype of the object.
pub fn ordinary_get_prototype_of(
    object: Object,
    agent: &mut Agent,
    _gc: GcScope,
) -> (r: JsResult< Option<Object>, >)
    requires
        old(agent)@.occupied(object),
    ensures
        r == Ok::<Option<Object>, JsError>(old(agent)@.prototype(object)),
        *final(agent) == *old(agent),
{
    Ok(object.internal_prototype(agent))
}

/// Asks for another prototype and says whether the object has it now.
/// The request is refused where the object is not extensible, and
/// where the new prototype has the object on its own chain.
pub fn ordinary_set_prototype_of(
    object: Object,
    agent: &mut Agent,
    _gc: GcScope,
    prototype: Option<Object>,
) -> (r: JsResult<bool>)
    requires
        old(agent)@.wf(),
        old(agent)@.acyclic(),
        old(agent)@.occupied(object),
        old(agent)@.holds_link(prototype),
    ensures
        r == Ok::<bool, JsError>(old(agent)@.set_prototype_of(object, prototype).1),
        final(agent)@ == old(agent)@.set_prototype_of(object, prototype).0,
        final(agent).counters() == old(agent).counters(),
        final(agent)@.wf(),
        final(agent)@.acyclic(),
        r == Ok::<bool, JsError>(true) ==> final(agent)@.prototype(object) == prototype,
        forall|z: Object| old(agent)@.occupied(z) == final(agent)@.occupied(z),
{
    let current = object.internal_prototype(agent);
    if prototype == current {
        return Ok(true);
    }
    if !object.internal_extensible(agent) {
        return Ok(false);
    }
    match prototype {
        Some(p) => {
            if object.on_chain_of(agent, p) {
                return Ok(false);
            }
        },
        None => {},
    }
    proof {
        lemma_with_prototype(agent@, object, prototype);
        lemma_relinked_acyclic(agent@, agent@.with_prototype(object, prototype), object);
    }
    object.internal_set_prototype(agent, prototype);
    Ok(true)
}

/// Whether properties may be added to the object.
pub fn ordinary_is_extensible(
    object: Object,
    agent: &mut Agent,
    _gc: GcScope,
) -> (r: JsResult<bool>)
    requires
        old(agent)@.occupied(object),
    ensures
        r == Ok::<bool, JsError>(old(agent)@.extensible(object)),
        *final(agent) == *old(agent),
{
    Ok(object.internal_extensible(agent))
}

/// Closes the object to new properties, and says that it is closed.
pub fn ordinary_prevent_extensions(
    object: Object,
    agent: &mut Agent,
    _gc: GcScope,
) -> (r: JsResult< bool, >)
    requires
        old(agent)@.wf(),
        old(agent)@.occupied(object),
    ensures
        r == Ok::<bool, JsError>(true),
        final(agent)@ == old(agent)@.with_extensible(object, false),
        final(agent).counters() == old(agent).counters(),
        final(agent)@.wf(),
        !final(agent)@.extensible(object),
        old(agent)@.acyclic() ==> final(agent)@.acyclic(),
        forall|z: Object| old(agent)@.occupied(z) == final(agent)@.occupied(z),
{
    proof {
        lemma_with_extensible(agent@, object, false);
    }
    object.internal_set_extensible(agent, false);
    Ok(true)
}

/// The object's own property named `key` as a descriptor, or nothing
/// where it has none.
pub fn ordinary_get_own_property(
    object: Object,
    agent: &mut Agent,
    _gc: GcScope,
    property_key: PropertyKey,
) -> (r: JsResult<Option<PropertyDescriptor>>)
    requires
        old(agent)@.wf(),
        old(agent)@.occupied(object),
    ensures
        r == Ok::<Option<PropertyDescriptor>, JsError>(
            match old(agent)@.own_property(object, property_key) {
                Some(entry) => Some(descriptor_of(entry)),
                None => None,
            },
        ),
        *final(agent) == *old(agent),
{
    match object.own_property(agent, property_key) {
        Some(entry) => Ok(
            Some(
                PropertyDescriptor {
                    value: Some(entry.value),
                    writable: Some(entry.writable),
                    enumerable: Some(entry.enumerable),
                    configurable: Some(entry.configurable),
                },
            ),
        ),
        None => Ok(None),
    }
}

/// Defines an own property of the object, or changes one, as the
/// descriptor asks. The script sees a failure where the property would
/// be new and the object is not extensible, and where the property is
/// there and its attributes forbid the change; then nothing changes.
pub fn ordinary_define_own_property(
    object: Object,
    agent: &mut Agent,
    _gc: GcScope,
    property_key: PropertyKey,
    property_descriptor: PropertyDescriptor,
) -> (r: JsResult<bool>)
    requires
        old(agent)@.wf(),
        old(agent)@.occupied(object),
        property_descriptor.value is Some ==> old(agent)@.holds_value(
            property_descriptor.value->0,
        ),
        old(agent)@.backing_object(object) is None ==> old(agent)@.objects.len() < u32::MAX,
    ensures
        match old(agent)@.define_own_property(object, property_key, property_descriptor) {
            Ok(heap) => r == Ok::<bool, JsError>(true) && final(agent)@ == heap,
            Err(e) => r == Err::<bool, JsError>(e) && final(agent)@ == old(agent)@,
        },
        final(agent).counters() == if r is Ok && old(agent)@.backing_object(object) is None {
            old(agent).counters_after_allocation()
        } else {
            old(agent).counters()
        },
        final(agent)@.wf(),
        old(agent)@.acyclic() ==> final(agent)@.acyclic(),
        forall|z: Object| old(agent)@.occupied(z) ==> final(agent)@.occupied(z),
{
    let ghost before = agent@;
    proof {
        lemma_store_properties(before, object);
        lemma_with_store(before, object);
        if before.define_own_property(object, property_key, property_descriptor) is Ok {
            lemma_define_own_property(before, object, property_key, property_descriptor);
        }
    }
    let extensible = object.internal_extensible(agent);
    let store = match object {
        Object::Object(h) => h,
        Object::EmbedderObject(e) => match e.get_backing_object(agent) {
            Some(b) => b,
            None => {
                if !extensible {
                    return Err(JsError::NotExtensible);
                }
                e.create_backing_object(agent)
            },
        },
    };
    assert(agent@ == before.with_store(object));
    assert(store == before.store_of(object));
    agent.define_in_store(store, extensible, property_key, property_descriptor)
}

/// Whether the object has a property named `key`, its own or one that
/// it inherits.
pub fn ordinary_has_property(
    object: Object,
    agent: &mut Agent,
    _gc: GcScope,
    property_key: PropertyKey,
) -> (r: JsResult<bool>)
    requires
        old(agent)@.wf(),
        old(agent)@.acyclic(),
        old(agent)@.occupied(object),
    ensures
        r == Ok::<bool, JsError>(old(agent)@.lookup(object, property_key) is Some),
        *final(agent) == *old(agent),
{
    Ok(object.lookup(agent, property_key).is_some())
}

/// The value of the property named `key` that the object has or
/// inherits, or undefined where there is none.
pub fn ordinary_get(
    object: Object,
    agent: &mut Agent,
    _gc: GcScope,
    property_key: PropertyKey,
    _receiver: Value,
) -> (r: JsResult<Value>)
    requires
        old(agent)@.wf(),
        old(agent)@.acyclic(),
        old(agent)@.occupied(object),
    ensures
        r == Ok::<Value, JsError>(
            match old(agent)@.lookup(object, property_key) {
                Some(entry) => entry.value,
                None => Value::Undefined,
            },
        ),
        *final(agent) == *old(agent),
{
    match object.lookup(agent, property_key) {
        Some(entry) => Ok(entry.value),
        None => Ok(Value::Undefined),
    }
}

/// Assigns `value` to the property named `key`, for the receiver of
/// the assignment, and says whether it was assigned.
pub fn ordinary_set(
    object: Object,
    agent: &mut Agent,
    mut gc: GcScope,
    property_key: PropertyKey,
    value: Value,
    receiver: Value,
) -> (r: JsResult<bool>)
    requires
        old(agent)@.wf(),
        old(agent)@.acyclic(),
        old(agent)@.occupied(object),
        old(agent)@.holds_value(value),
        old(agent)@.holds_value(receiver),
        receiver.as_object() is Some && old(agent)@.backing_object(receiver.as_object()->0)
            is None ==> old(agent)@.objects.len() < u32::MAX,
    ensures
        match old(agent)@.set(object, property_key, value, receiver) {
            Ok((heap, assigned)) => r == Ok::<bool, JsError>(assigned) && final(agent)@
                == heap,
            Err(e) => r == Err::<bool, JsError>(e) && final(agent)@ == old(agent)@,
        },
        final(agent).counters() == if r == Ok::<bool, JsError>(true) && old(
            agent,
        )@.backing_object(receiver.as_object()->0) is None {
            old(agent).counters_after_allocation()
        } else {
            old(agent).counters()
        },
        final(agent)@.wf(),
        final(agent)@.acyclic(),
        forall|z: Object| old(agent)@.occupied(z) ==> final(agent)@.occupied(z),
{
    match object.lookup(agent, property_key) {
        Some(found) => {
            if !found.writable {
                return Ok(false);
            }
        },
        None => {},
    }
    let target = match receiver.to_object() {
        Some(o) => o,
        None => {
            return Ok(false);
        },
    };
    match target.own_property(agent, property_key) {
        Some(existing) => {
            if !existing.writable {
                return Ok(false);
            }
            let desc = PropertyDescriptor {
                value: Some(value),
                writable: None,
                enumerable: None,
                configurable: None,
            };
            target.internal_define_own_property(agent, gc.reborrow(), property_key, desc)
        },
        None => {
            let desc = PropertyDescriptor {
                value: Some(value),
                writable: Some(true),
                enumerable: Some(true),
                configurable: Some(true),
            };
            target.internal_define_own_property(agent, gc.reborrow(), property_key, desc)
        },
    }
}

/// Deletes the object's own property named `key` and says whether it
/// is gone: a property that is not configurable stays.
pub fn ordinary_delete(
    object: Object,
    agent: &mut Agent,
    _gc: GcScope,
    property_key: PropertyKey,
) -> (r: JsResult<bool>)
    requires
        old(agent)@.wf(),
        old(agent)@.occupied(object),
    ensures
        r == Ok::<bool, JsError>(old(agent)@.delete(object, property_key).1),
        final(agent)@ == old(agent)@.delete(object, property_key).0,
        final(agent).counters() == old(agent).counters(),
        final(agent)@.wf(),
        old(agent)@.acyclic() ==> final(agent)@.acyclic(),
        forall|z: Object| old(agent)@.occupied(z) == final(agent)@.occupied(z),
{
    let ghost before = agent@;
    proof {
        lemma_store_properties(before, object);
    }
    match object.get_backing_object(agent) {
        None => Ok(true),
        Some(b) => {
            proof {
                let properties = before.object(b).properties;
                assert(before.objects[b.0.index()]->0.wf());
                if delete_in(properties, property_key) is Some {
                    lemma_delete_in(properties, property_key);
                    let after = delete_in(properties, property_key)->0;
                    assert forall|y: Object| property_refs(after).contains(
                        y,
                    ) implies before.occupied(y) by {
                        lemma_object_refs(before.object(b), y);
                        assert(before.points_to(Object::Object(b), y));
                    }
                    lemma_with_properties(before, b, after);
                }
            }
            let gone = agent.delete_in_store(b, property_key);
            Ok(gone)
        },
    }
}

/// The names of the object's own properties: the integer names in
/// ascending order, then the symbols in the order in which their
/// properties were added.
pub fn ordinary_own_property_keys(
    object: Object,
    agent: &mut Agent,
    _gc: GcScope,
) -> (r: JsResult< Vec<PropertyKey>, >)
    requires
        old(agent)@.wf(),
        old(agent)@.occupied(object),
    ensures
        r matches Ok(keys) && keys@ == keys_of(old(agent)@.properties(object)),
        *final(agent) == *old(agent),
{
    proof {
        lemma_store_properties(agent@, object);
    }
    match object.get_backing_object(agent) {
        Some(b) => Ok(agent.object(b).keys()),
        None => {
            let keys: Vec<PropertyKey> = Vec::new();
            assert(keys@ =~= keys_of(agent@.properties(object)));
            Ok(keys)
        },
    }
}

impl Object {
    /// The prototype of the object.
    pub fn internal_get_prototype_of(
        self,
        agent: &mut Agent,
        gc: GcScope,
    ) -> (r: JsResult< Option<Object>, >)
        requires
            old(agent)@.occupied(self),
        ensures
            r == Ok::<Option<Object>, JsError>(old(agent)@.prototype(self)),
            *final(agent) == *old(agent),
    {
        match self {
            Object::Object(o) => o.internal_get_prototype_of(agent, gc),
            Object::EmbedderObject(e) => e.internal_get_prototype_of(agent, gc),
        }
    }

    /// Asks for another prototype and says whether the object has it now.
    /// The request is refused where the object is not extensible, and
    /// where the new prototype has the object on its own chain.
    pub fn internal_set_prototype_of(
        self,
        agent: &mut Agent,
        gc: GcScope,
        prototype: Option<Object>,
    ) -> (r: JsResult<bool>)
        requires
            old(agent)@.wf(),
            old(agent)@.acyclic(),
            old(agent)@.occupied(self),
            old(agent)@.holds_link(prototype),
        ensures
            r == Ok::<bool, JsError>(old(agent)@.set_prototype_of(self, prototype).1),
            final(agent)@ == old(agent)@.set_prototype_of(self, prototype).0,
            final(agent).counters() == old(agent).counters(),
            final(agent)@.wf(),
            final(agent)@.acyclic(),
            r == Ok::<bool, JsError>(true) ==> final(agent)@.prototype(self) == prototype,
            forall|z: Object| old(agent)@.occupied(z) == final(agent)@.occupied(z),
    {
        match self {
            Object::Object(o) => o.internal_set_prototype_of(agent, gc, prototype),
            Object::EmbedderObject(e) => e.internal_set_prototype_of(agent, gc, prototype),
        }
    }

    /// Whether properties may be added to the object.
    pub fn internal_is_extensible(self, agent: &mut Agent, gc: GcScope) -> (r: JsResult<bool>)
        requires
            old(agent)@.occupied(self),
        ensures
            r == Ok::<bool, JsError>(old(agent)@.extensible(self)),
            *final(agent) == *old(agent),
    {
        match self {
            Object::Object(o) => o.internal_is_extensible(agent, gc),
            Object::EmbedderObject(e) => e.internal_is_extensible(agent, gc),
        }
    }

    /// Closes the object to new properties, and says that it is closed.
    pub fn internal_prevent_extensions(
        self,
        agent: &mut Agent,
        gc: GcScope,
    ) -> (r: JsResult< bool, >)
        requires
            old(agent)@.wf(),
            old(agent)@.occupied(self),
        ensures
            r == Ok::<bool, JsError>(true),
            final(agent)@ == old(agent)@.with_extensible(self, false),
            final(agent).counters() == old(agent).counters(),
            final(agent)@.wf(),
            !final(agent)@.extensible(self),
            old(agent)@.acyclic() ==> final(agent)@.acyclic(),
            forall|z: Object| old(agent)@.occupied(z) == final(agent)@.occupied(z),
    {
        match self {
            Object::Object(o) => o.internal_prevent_extensions(agent, gc),
            Object::EmbedderObject(e) => e.internal_prevent_extensions(agent, gc),
        }
    }

    /// The object's own property named `key` as a descriptor, or nothing
    /// where it has none.
    pub fn internal_get_own_property(
        self,
        agent: &mut Agent,
        gc: GcScope,
        property_key: PropertyKey,
    ) -> (r: JsResult<Option<PropertyDescriptor>>)
        requires
            old(agent)@.wf(),
            old(agent)@.occupied(self),
        ensures
            r == Ok::<Option<PropertyDescriptor>, JsError>(
                match old(agent)@.own_property(self, property_key) {
                    Some(entry) => Some(descriptor_of(entry)),
                    None => None,
                },
            ),
            *final(agent) == *old(agent),
    {
        match self {
            Object::Object(o) => o.internal_get_own_property(agent, gc, property_key),
            Object::EmbedderObject(e) => e.internal_get_own_property(agent, gc, property_key),
        }
    }

    /// Defines an own property of the object, or changes one, as the
    /// descriptor asks. The script sees a failure where the property would
    /// be new and the object is not extensible, and where the property is
    /// there and its attributes forbid the change; then nothing changes.
    pub fn internal_define_own_property(
        self,
        agent: &mut Agent,
        gc: GcScope,
        property_key: PropertyKey,
        property_descriptor: PropertyDescriptor,
    ) -> (r: JsResult<bool>)
        requires
            old(agent)@.wf(),
            old(agent)@.occupied(self),
            property_descriptor.value is Some ==> old(agent)@.holds_value(
                property_descriptor.value->0,
            ),
            old(agent)@.backing_object(self) is None ==> old(agent)@.objects.len() < u32::MAX,
        ensures
            match old(agent)@.define_own_property(self, property_key, property_descriptor) {
                Ok(heap) => r == Ok::<bool, JsError>(true) && final(agent)@ == heap,
                Err(e) => r == Err::<bool, JsError>(e) && final(agent)@ == old(agent)@,
            },
            final(agent).counters() == if r is Ok && old(agent)@.backing_object(self) is None {
                old(agent).counters_after_allocation()
            } else {
                old(agent).counters()
            },
            final(agent)@.wf(),
            old(agent)@.acyclic() ==> final(agent)@.acyclic(),
            forall|z: Object| old(agent)@.occupied(z) ==> final(agent)@.occupied(z),
    {
        match self {
            Object::Object(o) => o.internal_define_own_property(agent, gc, property_key, property_descriptor),
            Object::EmbedderObject(e) => e.internal_define_own_property(agent, gc, property_key, property_descriptor),
        }
    }

    /// Whether the object has a property named `key`, its own or one that
    /// it inherits.
    pub fn internal_has_property(
        self,
        agent: &mut Agent,
        gc: GcScope,
        property_key: PropertyKey,
    ) -> (r: JsResult<bool>)
        requires
            old(agent)@.wf(),
            old(agent)@.acyclic(),
            old(agent)@.occupied(self),
        ensures
            r == Ok::<bool, JsError>(old(agent)@.lookup(self, property_key) is Some),
            *final(agent) == *old(agent),
    {
        match self {
            Object::Object(o) => o.internal_has_property(agent, gc, property_key),
            Object::EmbedderObject(e) => e.internal_has_property(agent, gc, property_key),
        }
    }

    /// The value of the property named `key` that the object has or
    /// inherits, or undefined where there is none.
    pub fn internal_get(
        self,
        agent: &mut Agent,
        gc: GcScope,
        property_key: PropertyKey,
        receiver: Value,
    ) -> (r: JsResult<Value>)
        requires
            old(agent)@.wf(),
            old(agent)@.acyclic(),
            old(agent)@.occupied(self),
        ensures
            r == Ok::<Value, JsError>(
                match old(agent)@.lookup(self, property_key) {
                    Some(entry) => entry.value,
                    None => Value::Undefined,
                },
            ),
            *final(agent) == *old(agent),
    {
        match self {
            Object::Object(o) => o.internal_get(agent, gc, property_key, receiver),
            Object::EmbedderObject(e) => e.internal_get(agent, gc, property_key, receiver),
        }
    }

    /// Assigns `value` to the property named `key`, for the receiver of
    /// the assignment, and says whether it was assigned.
    pub fn internal_set(
        self,
        agent: &mut Agent,
        gc: GcScope,
        property_key: PropertyKey,
        value: Value,
        receiver: Value,
    ) -> (r: JsResult<bool>)
        requires
            old(agent)@.wf(),
            old(agent)@.acyclic(),
            old(agent)@.occupied(self),
            old(agent)@.holds_value(value),
            old(agent)@.holds_value(receiver),
            receiver.as_object() is Some && old(agent)@.backing_object(receiver.as_object()->0)
                is None ==> old(agent)@.objects.len() < u32::MAX,
        ensures
            match old(agent)@.set(self, property_key, value, receiver) {
                Ok((heap, assigned)) => r == Ok::<bool, JsError>(assigned) && final(agent)@
                    == heap,
                Err(e) => r == Err::<bool, JsError>(e) && final(agent)@ == old(agent)@,
            },
            final(agent).counters() == if r == Ok::<bool, JsError>(true) && old(
                agent,
            )@.backing_object(receiver.as_object()->0) is None {
                old(agent).counters_after_allocation()
            } else {
                old(agent).counters()
            },
            final(agent)@.wf(),
            final(agent)@.acyclic(),
            forall|z: Object| old(agent)@.occupied(z) ==> final(agent)@.occupied(z),
    {
        match self {
            Object::Object(o) => o.internal_set(agent, gc, property_key, value, receiver),
            Object::EmbedderObject(e) => e.internal_set(agent, gc, property_key, value, receiver),
        }
    }

    /// Deletes the object's own property named `key` and says whether it
    /// is gone: a property that is not configurable stays.
    pub fn internal_delete(
        self,
        agent: &mut Agent,
        gc: GcScope,
        property_key: PropertyKey,
    ) -> (r: JsResult<bool>)
        requires
            old(agent)@.wf(),
            old(agent)@.occupied(self),
        ensures
            r == Ok::<bool, JsError>(old(agent)@.delete(self, property_key).1),
            final(agent)@ == old(agent)@.delete(self, property_key).0,
            final(agent).counters() == old(agent).counters(),
            final(agent)@.wf(),
            old(agent)@.acyclic() ==> final(agent)@.acyclic(),
            forall|z: Object| old(agent)@.occupied(z) == final(agent)@.occupied(z),
    {
        match self {
            Object::Object(o) => o.internal_delete(agent, gc, property_key),
            Object::EmbedderObject(e) => e.internal_delete(agent, gc, property_key),
        }
    }

    /// The names of the object's own properties: the integer names in
    /// ascending order, then the symbols in the order in which their
    /// properties were added.
    pub fn internal_own_property_keys(
        self,
        agent: &mut Agent,
        gc: GcScope,
    ) -> (r: JsResult< Vec<PropertyKey>, >)
        requires
            old(agent)@.wf(),
            old(agent)@.occupied(self),
        ensures
            r matches Ok(keys) && keys@ == keys_of(old(agent)@.properties(self)),
            *final(agent) == *old(agent),
    {
        match self {
            Object::Object(o) => o.internal_own_property_keys(agent, gc),
            Object::EmbedderObject(e) => e.internal_own_property_keys(agent, gc),
        }
    }
}

} // verus!
