//! Embedder objects: handles and payloads.

use vstd::prelude::*;
use crate::ecmascript::execution::Agent;
use crate::ecmascript::methods::{
    ordinary_define_own_property,
    ordinary_delete,
    ordinary_get,
    ordinary_get_own_property,
    ordinary_get_prototype_of,
    ordinary_has_property,
    ordinary_is_extensible,
    ordinary_own_property_keys,
    ordinary_prevent_extensions,
    ordinary_set,
    ordinary_set_prototype_of,
};
use crate::ecmascript::properties::{descriptor_of, keys_of};
use crate::engine::GcScope;
use crate::ecmascript::ordinary::OrdinaryObject;
use crate::ecmascript::types::{
    option_refs,
    JsError,
    JsResult,
    Object,
    PropertyDescriptor,
    PropertyKey,
    Value,
};
use crate::heap::indexes::EmbedderObjectIndex;

verus! {

/// A handle to an embedder object: an object that the host program defines,
/// and that the engine carries about without looking into it.
#[derive(Clone, Copy, Debug, PartialEq, Eq, Structural, PartialOrd, Ord, Hash)]
pub struct EmbedderObject(pub EmbedderObjectIndex);

/// The payload of an embedder object.
#[derive(Clone, Copy, Debug, PartialEq, Eq, Structural)]
pub struct EmbedderObjectHeapData {
    pub extensible: bool,
    pub prototype: Option<Object>,
    /// The ordinary object that keeps this object's properties, once it has
    /// any.
    pub backing_object: Option<OrdinaryObject>,
    /// What the host knows the object by. The engine gives it no meaning.
    pub host_data: u64,
}

impl EmbedderObjectHeapData {
    /// Every handle that the payload holds: the prototype, then the backing
    /// object.
    pub open spec fn refs(self) -> Seq<Object> {
        option_refs(self.prototype) + match self.backing_object {
            Some(b) => seq![Object::Object(b)],
            None => Seq::empty(),
        }
    }
}

impl From<EmbedderObject> for EmbedderObjectIndex {
    fn from(val: EmbedderObject) -> (index: EmbedderObjectIndex) {
        val.0
    }
}

impl vstd::std_specs::convert::FromSpecImpl<EmbedderObject> for EmbedderObjectIndex {
    open spec fn obeys_from_spec() -> bool {
        true
    }

    open spec fn from_spec(val: EmbedderObject) -> EmbedderObjectIndex {
        val.0
    }
}

impl From<EmbedderObjectIndex> for EmbedderObject {
    fn from(value: EmbedderObjectIndex) -> (handle: EmbedderObject) {
        EmbedderObject(value)
    }
}

impl vstd::std_specs::convert::FromSpecImpl<EmbedderObjectIndex> for EmbedderObject {
    open spec fn obeys_from_spec() -> bool {
        true
    }

    open spec fn from_spec(value: EmbedderObjectIndex) -> EmbedderObject {
        EmbedderObject(value)
    }
}

impl From<EmbedderObject> for Value {
    fn from(val: EmbedderObject) -> (value: Value) {
        Value::EmbedderObject(val)
    }
}

impl vstd::std_specs::convert::FromSpecImpl<EmbedderObject> for Value {
    open spec fn obeys_from_spec() -> bool {
        true
    }

    open spec fn from_spec(val: EmbedderObject) -> Value {
        Value::EmbedderObject(val)
    }
}

impl From<EmbedderObject> for Object {
    fn from(val: EmbedderObject) -> (object: Object) {
        Object::EmbedderObject(val)
    }
}

impl vstd::std_specs::convert::FromSpecImpl<EmbedderObject> for Object {
    open spec fn obeys_from_spec() -> bool {
        true
    }

    open spec fn from_spec(val: EmbedderObject) -> Object {
        Object::EmbedderObject(val)
    }
}

impl EmbedderObject {
    /// The handle that names no object.
    pub fn _def() -> (r: Self)
        ensures
            r.0.is_sentinel(),
    {
        EmbedderObject(EmbedderObjectIndex::sentinel())
    }

    /// The slot of the arena that the handle names.
    pub fn get_index(self) -> (i: usize)
        requires
            !self.0.is_sentinel(),
        ensures
            i == self.0.index(),
    {
        self.0.into_index()
    }

    /// The handle as a handle to an object of any kind.
    pub fn into_object(self) -> (o: Object)
        ensures
            o == Object::EmbedderObject(self),
    {
        Object::EmbedderObject(self)
    }

    /// The handle as a value.
    pub fn into_value(self) -> (v: Value)
        ensures
            v == Value::EmbedderObject(self),
    {
        Value::EmbedderObject(self)
    }
}

impl EmbedderObject {
    /// The prototype of the object.
    pub fn internal_get_prototype_of(
        self,
        agent: &mut Agent,
        gc: GcScope,
    ) -> (r: JsResult< Option<Object>, >)
        requires
            old(agent)@.occupied(Object::EmbedderObject(self)),
        ensures
            r == Ok::<Option<Object>, JsError>(old(agent)@.prototype(Object::EmbedderObject(self))),
            *final(agent) == *old(agent),
    {
        ordinary_get_prototype_of(Object::EmbedderObject(self), agent, gc)
    }

    /// Asks for another prototype and says whether the object has it now.
    /// The request is refused where the object is not extensible, and
    /// where the new prototype has the object on its own chain.
    pub fn internal_set_prototype_of(
        self,
        agent: &mut Agent,
        gc: GcScope,
        prototype: Option<Object>,
    ) -> (r: JsResult<bool>)
        requires
            old(agent)@.wf(),
            old(agent)@.acyclic(),
            old(agent)@.occupied(Object::EmbedderObject(self)),
            old(agent)@.holds_link(prototype),
        ensures
            r == Ok::<bool, JsError>(old(agent)@.set_prototype_of(Object::EmbedderObject(self), prototype).1),
            final(agent)@ == old(agent)@.set_prototype_of(Object::EmbedderObject(self), prototype).0,
            final(agent).counters() == old(agent).counters(),
            final(agent)@.wf(),
            final(agent)@.acyclic(),
            r == Ok::<bool, JsError>(true) ==> final(agent)@.prototype(Object::EmbedderObject(self)) == prototype,
            forall|z: Object| old(agent)@.occupied(z) == final(agent)@.occupied(z),
    {
        ordinary_set_prototype_of(Object::EmbedderObject(self), agent, gc, prototype)
    }

    /// Whether properties may be added to the object.
    pub fn internal_is_extensible(self, agent: &mut Agent, gc: GcScope) -> (r: JsResult<bool>)
        requires
            old(agent)@.occupied(Object::EmbedderObject(self)),
        ensures
            r == Ok::<bool, JsError>(old(agent)@.extensible(Object::EmbedderObject(self))),
            *final(agent) == *old(agent),
    {
        ordinary_is_extensible(Object::EmbedderObject(self), agent, gc)
    }

    /// Closes the object to new properties, and says that it is closed.
    pub fn internal_prevent_extensions(
        self,
        agent: &mut Agent,
        gc: GcScope,
    ) -> (r: JsResult< bool, >)
        requires
            old(agent)@.wf(),
            old(agent)@.occupied(Object::EmbedderObject(self)),
        ensures
            r == Ok::<bool, JsError>(true),
            final(agent)@ == old(agent)@.with_extensible(Object::EmbedderObject(self), false),
            final(agent).counters() == old(agent).counters(),
            final(agent)@.wf(),
            !final(agent)@.extensible(Object::EmbedderObject(self)),
            old(agent)@.acyclic() ==> final(agent)@.acyclic(),
            forall|z: Object| old(agent)@.occupied(z) == final(agent)@.occupied(z),
    {
        ordinary_prevent_extensions(Object::EmbedderObject(self), agent, gc)
    }

    /// The object's own property named `key` as a descriptor, or nothing
    /// where it has none.
    pub fn internal_get_own_property(
        self,
        agent: &mut Agent,
        gc: GcScope,
        property_key: PropertyKey,
    ) -> (r: JsResult<Option<PropertyDescriptor>>)
        requires
            old(agent)@.wf(),
            old(agent)@.occupied(Object::EmbedderObject(self)),
        ensures
            r == Ok::<Option<PropertyDescriptor>, JsError>(
                match old(agent)@.own_property(Object::EmbedderObject(self), property_key) {
                    Some(entry) => Some(descriptor_of(entry)),
                    None => None,
                },
            ),
            *final(agent) == *old(agent),
    {
        ordinary_get_own_property(Object::EmbedderObject(self), agent, gc, property_key)
    }

    /// Defines an own property of the object, or changes one, as the
    /// descriptor asks. The script sees a failure where the property would
    /// be new and the object is not extensible, and where the property is
    /// there and its attributes forbid the change; then nothing changes.
    pub fn internal_define_own_property(
        self,
        agent: &mut Agent,
        gc: GcScope,
        property_key: PropertyKey,
        property_descriptor: PropertyDescriptor,
    ) -> (r: JsResult<bool>)
        requires
            old(agent)@.wf(),
            old(agent)@.occupied(Object::EmbedderObject(self)),
            property_descriptor.value is Some ==> old(agent)@.holds_value(
                property_descriptor.value->0,
            ),
            old(agent)@.backing_object(Object::EmbedderObject(self)) is None ==> old(agent)@.objects.len() < u32::MAX,
        ensures
            match old(agent)@.define_own_property(Object::EmbedderObject(self), property_key, property_descriptor) {
                Ok(heap) => r == Ok::<bool, JsError>(true) && final(agent)@ == heap,
                Err(e) => r == Err::<bool, JsError>(e) && final(agent)@ == old(agent)@,
            },
            final(agent).counters() == if r is Ok && old(agent)@.backing_object(Object::EmbedderObject(self)) is None {
                old(agent).counters_after_allocation()
            } else {
                old(agent).counters()
            },
            final(agent)@.wf(),
            old(agent)@.acyclic() ==> final(agent)@.acyclic(),
            forall|z: Object| old(agent)@.occupied(z) ==> final(agent)@.occupied(z),
    {
        ordinary_define_own_property(Object::EmbedderObject(self), agent, gc, property_key, property_descriptor)
    }

    /// Whether the object has a property named `key`, its own or one that
    /// it inherits.
    pub fn internal_has_property(
        self,
        agent: &mut Agent,
        gc: GcScope,
        property_key: PropertyKey,
    ) -> (r: JsResult<bool>)
        requires
            old(agent)@.wf(),
            old(agent)@.acyclic(),
            old(agent)@.occupied(Object::EmbedderObject(self)),
        ensures
            r == Ok::<bool, JsError>(old(agent)@.lookup(Object::EmbedderObject(self), property_key) is Some),
            *final(agent) == *old(agent),
    {
        ordinary_has_property(Object::EmbedderObject(self), agent, gc, property_key)
    }

    /// The value of the property named `key` that the object has or
    /// inherits, or undefined where there is none.
    pub fn internal_get(
        self,
        agent: &mut Agent,
        gc: GcScope,
        property_key: PropertyKey,
        receiver: Value,
    ) -> (r: JsResult<Value>)
        requires
            old(agent)@.wf(),
            old(agent)@.acyclic(),
            old(agent)@.occupied(Object::EmbedderObject(self)),
        ensures
            r == Ok::<Value, JsError>(
                match old(agent)@.lookup(Object::EmbedderObject(self), property_key) {
                    Some(entry) => entry.value,
                    None => Value::Undefined,
                },
            ),
            *final(agent) == *old(agent),
    {
        ordinary_get(Object::EmbedderObject(self), agent, gc, property_key, receiver)
    }

    /// Assigns `value` to the property named `key`, for the receiver of
    /// the assignment, and says whether it was assigned.
    pub fn internal_set(
        self,
        agent: &mut Agent,
        gc: GcScope,
        property_key: PropertyKey,
        value: Value,
        receiver: Value,
    ) -> (r: JsResult<bool>)
        requires
            old(agent)@.wf(),
            old(agent)@.acyclic(),
            old(agent)@.occupied(Object::EmbedderObject(self)),
            old(agent)@.holds_value(value),
            old(agent)@.holds_value(receiver),
            receiver.as_object() is Some && old(agent)@.backing_object(receiver.as_object()->0)
                is None ==> old(agent)@.objects.len() < u32::MAX,
        ensures
            match old(agent)@.set(Object::EmbedderObject(self), property_key, value, receiver) {
                Ok((heap, assigned)) => r == Ok::<bool, JsError>(assigned) && final(agent)@
                    == heap,
                Err(e) => r == Err::<bool, JsError>(e) && final(agent)@ == old(agent)@,
            },
            final(agent).counters() == if r == Ok::<bool, JsError>(true) && old(
                agent,
            )@.backing_object(receiver.as_object()->0) is None {
                old(agent).counters_after_allocation()
            } else {
                old(agent).counters()
            },
            final(agent)@.wf(),
            final(agent)@.acyclic(),
            forall|z: Object| old(agent)@.occupied(z) ==> final(agent)@.occupied(z),
    {
        ordinary_set(Object::EmbedderObject(self), agent, gc, property_key, value, receiver)
    }

    /// Deletes the object's own property named `key` and says whether it
    /// is gone: a property that is not configurable stays.
    pub fn internal_delete(
        self,
        agent: &mut Agent,
        gc: GcScope,
        property_key: PropertyKey,
    ) -> (r: JsResult<bool>)
        requires
            old(agent)@.wf(),
            old(agent)@.occupied(Object::EmbedderObject(self)),
        ensures
            r == Ok::<bool, JsError>(old(agent)@.delete(Object::EmbedderObject(self), property_key).1),
            final(agent)@ == old(agent)@.delete(Object::EmbedderObject(self), property_key).0,
            final(agent).counters() == old(agent).counters(),
            final(agent)@.wf(),
            old(agent)@.acyclic() ==> final(agent)@.acyclic(),
            forall|z: Object| old(agent)@.occupied(z) == final(agent)@.occupied(z),
    {
        ordinary_delete(Object::EmbedderObject(self), agent, gc, property_key)
    }

    /// The names of the object's own properties: the integer names in
    /// ascending order, then the symbols in the order in which their
    /// properties were added.
    pub fn internal_own_property_keys(
        self,
        agent: &mut Agent,
        gc: GcScope,
    ) -> (r: JsResult< Vec<PropertyKey>, >)
        requires
            old(agent)@.wf(),
            old(agent)@.occupied(Object::EmbedderObject(self)),
        ensures
            r matches Ok(keys) && keys@ == keys_of(old(agent)@.properties(Object::EmbedderObject(self))),
            *final(agent) == *old(agent),
    {
        ordinary_own_property_keys(Object::EmbedderObject(self), agent, gc)
    }
}

} // verus!
