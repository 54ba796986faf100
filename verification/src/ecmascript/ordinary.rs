//! Ordinary objects: handles and payloads.

use vstd::prelude::*;
use crate::ecmascript::execution::Agent;
use crate::ecmascript::methods::{
    ordinary_define_own_property,
    ordinary_delete,
    ordinary_get,
    ordinary_get_own_property,
    ordinary_get_prototype_of,
    ordinary_has_property,
    ordinary_is_extensible,
    ordinary_own_property_keys,
    ordinary_prevent_extensions,
    ordinary_set,
    ordinary_set_prototype_of,
};
use crate::ecmascript::properties::{descriptor_of, distinct_keys, keys_of};
use crate::engine::GcScope;
use crate::ecmascript::types::{
    option_refs,
    JsError,
    JsResult,
    Object,
    PropertyDescriptor,
    PropertyKey,
    Value,
};
use crate::heap::indexes::ObjectIndex;

verus! {

/// A handle to an ordinary object: an object that keeps its properties in its
/// own payload.
#[derive(Clone, Copy, Debug, PartialEq, Eq, Structural, PartialOrd, Ord, Hash)]
pub struct OrdinaryObject(pub ObjectIndex);

/// One property of an object: its name, its value and its attributes.
#[derive(Clone, Copy, Debug, PartialEq, Eq, Structural)]
pub struct PropertyEntry {
    pub key: PropertyKey,
    pub value: Value,
    pub writable: bool,
    pub enumerable: bool,
    pub configurable: bool,
}

/// The payload of an ordinary object.
#[derive(Debug)]
pub struct ObjectHeapData {
    pub extensible: bool,
    pub prototype: Option<Object>,
    /// The properties, in the order in which they were added.
    pub properties: Vec<PropertyEntry>,
}

/// What the payload of an ordinary object holds.
pub struct ObjectData {
    pub extensible: bool,
    pub prototype: Option<Object>,
    pub properties: Seq<PropertyEntry>,
}

impl View for ObjectHeapData {
    type V = ObjectData;

    open spec fn view(&self) -> ObjectData {
        ObjectData {
            extensible: self.extensible,
            prototype: self.prototype,
            properties: self.properties@,
        }
    }
}

/// The handles that properties hold, in the order of the properties.
pub open spec fn property_refs(properties: Seq<PropertyEntry>) -> Seq<Object>
    decreases properties.len(),
{
    if properties.len() == 0 {
        Seq::empty()
    } else {
        property_refs(properties.drop_last()) + properties.last().value.refs()
    }
}

impl ObjectData {
    /// Every handle that the payload holds: the prototype, then those of the
    /// properties.
    pub open spec fn refs(self) -> Seq<Object> {
        option_refs(self.prototype) + property_refs(self.properties)
    }

    /// No name occurs twice among the properties.
    pub open spec fn wf(self) -> bool {
        distinct_keys(self.properties)
    }
}

impl From<OrdinaryObject> for Value {
    fn from(val: OrdinaryObject) -> (value: Value) {
        Value::Object(val)
    }
}

impl vstd::std_specs::convert::FromSpecImpl<OrdinaryObject> for Value {
    open spec fn obeys_from_spec() -> bool {
        true
    }

    open spec fn from_spec(val: OrdinaryObject) -> Value {
        Value::Object(val)
    }
}

impl From<OrdinaryObject> for Object {
    fn from(val: OrdinaryObject) -> (object: Object) {
        Object::Object(val)
    }
}

impl vstd::std_specs::convert::FromSpecImpl<OrdinaryObject> for Object {
    open spec fn obeys_from_spec() -> bool {
        true
    }

    open spec fn from_spec(val: OrdinaryObject) -> Object {
        Object::Object(val)
    }
}

impl OrdinaryObject {
    /// The handle that names no object.
    pub fn _def() -> (r: Self)
        ensures
            r.0.is_sentinel(),
    {
        OrdinaryObject(ObjectIndex::sentinel())
    }

    /// The slot of the arena that the handle names.
    pub fn get_index(self) -> (i: usize)
        requires
            !self.0.is_sentinel(),
        ensures
            i == self.0.index(),
    {
        self.0.into_index()
    }

    /// The handle as a handle to an object of any kind.
    pub fn into_object(self) -> (o: Object)
        ensures
            o == Object::Object(self),
    {
        Object::Object(self)
    }

    /// The handle as a value.
    pub fn into_value(self) -> (v: Value)
        ensures
            v == Value::Object(self),
    {
        Value::Object(self)
    }
}

impl OrdinaryObject {
    /// The prototype of the object.
    pub fn internal_get_prototype_of(
        self,
        agent: &mut Agent,
        gc: GcScope,
    ) -> (r: JsResult< Option<Object>, >)
        requires
            old(agent)@.occupied(Object::Object(self)),
        ensures
            r == Ok::<Option<Object>, JsError>(old(agent)@.prototype(Object::Object(self))),
            *final(agent) == *old(agent),
    {
        ordinary_get_prototype_of(Object::Object(self), agent, gc)
    }

    /// Asks for another prototype and says whether the object has it now.
    /// The request is refused where the object is not extensible, and
    /// where the new prototype has the object on its own chain.
    pub fn internal_set_prototype_of(
        self,
        agent: &mut Agent,
        gc: GcScope,
        prototype: Option<Object>,
    ) -> (r: JsResult<bool>)
        requires
            old(agent)@.wf(),
            old(agent)@.acyclic(),
            old(agent)@.occupied(Object::Object(self)),
            old(agent)@.holds_link(prototype),
        ensures
            r == Ok::<bool, JsError>(old(agent)@.set_prototype_of(Object::Object(self), prototype).1),
            final(agent)@ == old(agent)@.set_prototype_of(Object::Object(self), prototype).0,
            final(agent).counters() == old(agent).counters(),
            final(agent)@.wf(),
            final(agent)@.acyclic(),
            r == Ok::<bool, JsError>(true) ==> final(agent)@.prototype(Object::Object(self)) == prototype,
            forall|z: Object| old(agent)@.occupied(z) == final(agent)@.occupied(z),
    {
        ordinary_set_prototype_of(Object::Object(self), agent, gc, prototype)
    }

    /// Whether properties may be added to the object.
    pub fn internal_is_extensible(self, agent: &mut Agent, gc: GcScope) -> (r: JsResult<bool>)
        requires
            old(agent)@.occupied(Object::Object(self)),
        ensures
            r == Ok::<bool, JsError>(old(agent)@.extensible(Object::Object(self))),
            *final(agent) == *old(agent),
    {
        ordinary_is_extensible(Object::Object(self), agent, gc)
    }

    /// Closes the object to new properties, and says that it is closed.
    pub fn internal_prevent_extensions(
        self,
        agent: &mut Agent,
        gc: GcScope,
    ) -> (r: JsResult< bool, >)
        requires
            old(agent)@.wf(),
            old(agent)@.occupied(Object::Object(self)),
        ensures
            r == Ok::<bool, JsError>(true),
            final(agent)@ == old(agent)@.with_extensible(Object::Object(self), false),
            final(agent).counters() == old(agent).counters(),
            final(agent)@.wf(),
            !final(agent)@.extensible(Object::Object(self)),
            old(agent)@.acyclic() ==> final(agent)@.acyclic(),
            forall|z: Object| old(agent)@.occupied(z) == final(agent)@.occupied(z),
    {
        ordinary_prevent_extensions(Object::Object(self), agent, gc)
    }

    /// The object's own property named `key` as a descriptor, or nothing
    /// where it has none.
    pub fn internal_get_own_property(
        self,
        agent: &mut Agent,
        gc: GcScope,
        property_key: PropertyKey,
    ) -> (r: JsResult<Option<PropertyDescriptor>>)
        requires
            old(agent)@.wf(),
            old(agent)@.occupied(Object::Object(self)),
        ensures
            r == Ok::<Option<PropertyDescriptor>, JsError>(
                match old(agent)@.own_property(Object::Object(self), property_key) {
                    Some(entry) => Some(descriptor_of(entry)),
                    None => None,
                },
            ),
            *final(agent) == *old(agent),
    {
        ordinary_get_own_property(Object::Object(self), agent, gc, property_key)
    }

    /// Defines an own property of the object, or changes one, as the
    /// descriptor asks. The script sees a failure where the property would
    /// be new and the object is not extensible, and where the property is
    /// there and its attributes forbid the change; then nothing changes.
    pub fn internal_define_own_property(
        self,
        agent: &mut Agent,
        gc: GcScope,
        property_key: PropertyKey,
        property_descriptor: PropertyDescriptor,
    ) -> (r: JsResult<bool>)
        requires
            old(agent)@.wf(),
            old(agent)@.occupied(Object::Object(self)),
            property_descriptor.value is Some ==> old(agent)@.holds_value(
                property_descriptor.value->0,
            ),
            old(agent)@.backing_object(Object::Object(self)) is None ==> old(agent)@.objects.len() < u32::MAX,
        ensures
            match old(agent)@.define_own_property(Object::Object(self), property_key, property_descriptor) {
                Ok(heap) => r == Ok::<bool, JsError>(true) && final(agent)@ == heap,
                Err(e) => r == Err::<bool, JsError>(e) && final(agent)@ == old(agent)@,
            },
            final(agent).counters() == if r is Ok && old(agent)@.backing_object(Object::Object(self)) is None {
                old(agent).counters_after_allocation()
            } else {
                old(agent).counters()
            },
            final(agent)@.wf(),
            old(agent)@.acyclic() ==> final(agent)@.acyclic(),
            forall|z: Object| old(agent)@.occupied(z) ==> final(agent)@.occupied(z),
    {
        ordinary_define_own_property(Object::Object(self), agent, gc, property_key, property_descriptor)
    }

    /// Whether the object has a property named `key`, its own or one that
    /// it inherits.
    pub fn internal_has_property(
        self,
        agent: &mut Agent,
        gc: GcScope,
        property_key: PropertyKey,
    ) -> (r: JsResult<bool>)
        requires
            old(agent)@.wf(),
            old(agent)@.acyclic(),
            old(agent)@.occupied(Object::Object(self)),
        ensures
            r == Ok::<bool, JsError>(old(agent)@.lookup(Object::Object(self), property_key) is Some),
            *final(agent) == *old(agent),
    {
        ordinary_has_property(Object::Object(self), agent, gc, property_key)
    }

    /// The value of the property named `key` that the object has or
    /// inherits, or undefined where there is none.
    pub fn internal_get(
        self,
        agent: &mut Agent,
        gc: GcScope,
        property_key: PropertyKey,
        receiver: Value,
    ) -> (r: JsResult<Value>)
        requires
            old(agent)@.wf(),
            old(agent)@.acyclic(),
            old(agent)@.occupied(Object::Object(self)),
        ensures
            r == Ok::<Value, JsError>(
                match old(agent)@.lookup(Object::Object(self), property_key) {
                    Some(entry) => entry.value,
                    None => Value::Undefined,
                },
            ),
            *final(agent) == *old(agent),
    {
        ordinary_get(Object::Object(self), agent, gc, property_key, receiver)
    }

    /// Assigns `value` to the property named `key`, for the receiver of
    /// the assignment, and says whether it was assigned.
    pub fn internal_set(
        self,
        agent: &mut Agent,
        gc: GcScope,
        property_key: PropertyKey,
        value: Value,
        receiver: Value,
    ) -> (r: JsResult<bool>)
        requires
            old(agent)@.wf(),
            old(agent)@.acyclic(),
            old(agent)@.occupied(Object::Object(self)),
            old(agent)@.holds_value(value),
            old(agent)@.holds_value(receiver),
            receiver.as_object() is Some && old(agent)@.backing_object(receiver.as_object()->0)
                is None ==> old(agent)@.objects.len() < u32::MAX,
        ensures
            match old(agent)@.set(Object::Object(self), property_key, value, receiver) {
                Ok((heap, assigned)) => r == Ok::<bool, JsError>(assigned) && final(agent)@
                    == heap,
                Err(e) => r == Err::<bool, JsError>(e) && final(agent)@ == old(agent)@,
            },
            final(agent).counters() == if r == Ok::<bool, JsError>(true) && old(
                agent,
            )@.backing_object(receiver.as_object()->0) is None {
                old(agent).counters_after_allocation()
            } else {
                old(agent).counters()
            },
            final(agent)@.wf(),
            final(agent)@.acyclic(),
            forall|z: Object| old(agent)@.occupied(z) ==> final(agent)@.occupied(z),
    {
        ordinary_set(Object::Object(self), agent, gc, property_key, value, receiver)
    }

    /// Deletes the object's own property named `key` and says whether it
    /// is gone: a property that is not configurable stays.
    pub fn internal_delete(
        self,
        agent: &mut Agent,
        gc: GcScope,
        property_key: PropertyKey,
    ) -> (r: JsResult<bool>)
        requires
            old(agent)@.wf(),
            old(agent)@.occupied(Object::Object(self)),
        ensures
            r == Ok::<bool, JsError>(old(agent)@.delete(Object::Object(self), property_key).1),
            final(agent)@ == old(agent)@.delete(Object::Object(self), property_key).0,
            final(agent).counters() == old(agent).counters(),
            final(agent)@.wf(),
            old(agent)@.acyclic() ==> final(agent)@.acyclic(),
            forall|z: Object| old(agent)@.occupied(z) == final(agent)@.occupied(z),
    {
        ordinary_delete(Object::Object(self), agent, gc, property_key)
    }

    /// The names of the object's own properties: the integer names in
    /// ascending order, then the symbols in the order in which their
    /// properties were added.
    pub fn internal_own_property_keys(
        self,
        agent: &mut Agent,
        gc: GcScope,
    ) -> (r: JsResult< Vec<PropertyKey>, >)
        requires
            old(agent)@.wf(),
            old(agent)@.occupied(Object::Object(self)),
        ensures
            r matches Ok(keys) && keys@ == keys_of(old(agent)@.properties(Object::Object(self))),
            *final(agent) == *old(agent),
    {
        ordinary_own_property_keys(Object::Object(self), agent, gc)
    }
}

} // verus!
