//! The internal slots of objects: backing object, extensibility and
//! prototype link.

use vstd::prelude::*;
use crate::ecmascript::embedder_object::{EmbedderObject, EmbedderObjectHeapData};
use crate::ecmascript::execution::Agent;
use crate::ecmascript::ordinary::{ObjectData, ObjectHeapData, OrdinaryObject, PropertyEntry};
use crate::ecmascript::types::Object;
use crate::heap::model::HeapModel;

verus! {

impl HeapModel {
    /// Whether properties may be added to the object.
    pub open spec fn extensible(self, o: Object) -> bool {
        match o {
            Object::Object(h) => self.object(h).extensible,
            Object::EmbedderObject(e) => self.embedder_object(e).extensible,
        }
    }

    /// The prototype link of the object; none where the handle resolves to
    /// nothing.
    pub open spec fn prototype(self, o: Object) -> Option<Object> {
        if !self.occupied(o) {
            None
        } else {
            match o {
                Object::Object(h) => self.object(h).prototype,
                Object::EmbedderObject(e) => self.embedder_object(e).prototype,
            }
        }
    }

    /// The ordinary object that keeps the properties of the object: an
    /// ordinary object itself, an embedder object's backing object if it has
    /// one.
    pub open spec fn backing_object(self, o: Object) -> Option<OrdinaryObject> {
        match o {
            Object::Object(h) => Some(h),
            Object::EmbedderObject(e) => self.embedder_object(e).backing_object,
        }
    }

    /// The properties of the object, in the order in which they were added.
    pub open spec fn properties(self, o: Object) -> Seq<PropertyEntry> {
        match self.backing_object(o) {
            Some(b) => self.object(b).properties,
            None => Seq::empty(),
        }
    }

    /// The heap in which the object's extensibility is `value`.
    pub open spec fn with_extensible(self, o: Object, value: bool) -> HeapModel {
        match o {
            Object::Object(h) => self.update_object(
                h,
                ObjectData { extensible: value, ..self.object(h) },
            ),
            Object::EmbedderObject(e) => self.update_embedder_object(
                e,
                EmbedderObjectHeapData { extensible: value, ..self.embedder_object(e) },
            ),
        }
    }

    /// The heap in which the object's prototype link is `prototype`.
    pub open spec fn with_prototype(self, o: Object, prototype: Option<Object>) -> HeapModel {
        match o {
            Object::Object(h) => self.update_object(h, ObjectData { prototype, ..self.object(h) }),
            Object::EmbedderObject(e) => self.update_embedder_object(
                e,
                EmbedderObjectHeapData { prototype, ..self.embedder_object(e) },
            ),
        }
    }

    /// The heap in which the embedder object keeps its properties in
    /// `backing`.
    pub open spec fn with_backing_object(
        self,
        e: EmbedderObject,
        backing: OrdinaryObject,
    ) -> HeapModel {
        self.update_embedder_object(
            e,
            EmbedderObjectHeapData { backing_object: Some(backing), ..self.embedder_object(e) },
        )
    }

    /// The heap in which the properties of the ordinary object are
    /// `properties`.
    pub open spec fn with_properties(
        self,
        h: OrdinaryObject,
        properties: Seq<PropertyEntry>,
    ) -> HeapModel {
        self.update_object(h, ObjectData { properties, ..self.object(h) })
    }
}

/// The payload that a new backing object starts with: no properties, no
/// prototype, open to new properties.
pub open spec fn empty_backing_object() -> ObjectData {
    ObjectData { extensible: true, prototype: None, properties: Seq::empty() }
}

impl OrdinaryObject {
    /// The object that keeps the properties: an ordinary object keeps its
    /// own.
    pub fn get_backing_object(self, agent: &Agent) -> (backing: Option<OrdinaryObject>)
        requires
            agent@.occupied(Object::Object(self)),
        ensures
            backing == agent@.backing_object(Object::Object(self)),
    {
        Some(self)
    }

    /// Whether properties may be added to the object.
    pub fn internal_extensible(self, agent: &Agent) -> (extensible: bool)
        requires
            agent@.occupied(Object::Object(self)),
        ensures
            extensible == agent@.extensible(Object::Object(self)),
    {
        agent.object(self).extensible
    }

    /// Sets whether properties may be added to the object.
    pub fn internal_set_extensible(self, agent: &mut Agent, value: bool)
        requires
            old(agent)@.occupied(Object::Object(self)),
        ensures
            final(agent)@ == old(agent)@.with_extensible(Object::Object(self), value),
            final(agent).counters() == old(agent).counters(),
    {
        let data = agent.object_mut(self);
        data.extensible = value;
    }

    /// The prototype link of the object.
    pub fn internal_prototype(self, agent: &Agent) -> (prototype: Option<Object>)
        requires
            agent@.occupied(Object::Object(self)),
        ensures
            prototype == agent@.prototype(Object::Object(self)),
    {
        agent.object(self).prototype
    }

    /// Sets the prototype link of the object.
    pub fn internal_set_prototype(self, agent: &mut Agent, prototype: Option<Object>)
        requires
            old(agent)@.occupied(Object::Object(self)),
        ensures
            final(agent)@ == old(agent)@.with_prototype(Object::Object(self), prototype),
            final(agent).counters() == old(agent).counters(),
    {
        let data = agent.object_mut(self);
        data.prototype = prototype;
    }
}

impl EmbedderObject {
    /// The ordinary object that keeps the properties of the object, if it
    /// has one yet.
    pub fn get_backing_object(self, agent: &Agent) -> (backing: Option<OrdinaryObject>)
        requires
            agent@.occupied(Object::EmbedderObject(self)),
        ensures
            backing == agent@.backing_object(Object::EmbedderObject(self)),
    {
        agent.index(self).backing_object
    }

    /// Makes `backing_object` the object that keeps the properties.
    pub fn set_backing_object(self, agent: &mut Agent, backing_object: OrdinaryObject)
        requires
            old(agent)@.occupied(Object::EmbedderObject(self)),
        ensures
            final(agent)@ == old(agent)@.with_backing_object(self, backing_object),
            final(agent).counters() == old(agent).counters(),
    {
        let data = agent.index_mut(self);
        data.backing_object = Some(backing_object);
    }

    /// Allocates an ordinary object without properties and makes it the
    /// object that keeps the properties.
    pub fn create_backing_object(self, agent: &mut Agent) -> (backing: OrdinaryObject)
        requires
            old(agent)@.occupied(Object::EmbedderObject(self)),
            old(agent)@.objects.len() < u32::MAX,
        ensures
            backing.0.index() == old(agent)@.objects.len(),
            final(agent)@ == old(agent)@.with_object(empty_backing_object()).with_backing_object(
                self,
                backing,
            ),
            final(agent).counters() == old(agent).counters_after_allocation(),
    {
        let data = ObjectHeapData { extensible: true, prototype: None, properties: Vec::new() };
        let backing = agent.heap.allocate_object(data);
        self.set_backing_object(agent, backing);
        backing
    }

    /// Whether properties may be added to the object.
    pub fn internal_extensible(self, agent: &Agent) -> (extensible: bool)
        requires
            agent@.occupied(Object::EmbedderObject(self)),
        ensures
            extensible == agent@.extensible(Object::EmbedderObject(self)),
    {
        agent.index(self).extensible
    }

    /// Sets whether properties may be added to the object.
    pub fn internal_set_extensible(self, agent: &mut Agent, value: bool)
        requires
            old(agent)@.occupied(Object::EmbedderObject(self)),
        ensures
            final(agent)@ == old(agent)@.with_extensible(Object::EmbedderObject(self), value),
            final(agent).counters() == old(agent).counters(),
    {
        let data = agent.index_mut(self);
        data.extensible = value;
    }

    /// The prototype link of the object.
    pub fn internal_prototype(self, agent: &Agent) -> (prototype: Option<Object>)
        requires
            agent@.occupied(Object::EmbedderObject(self)),
        ensures
            prototype == agent@.prototype(Object::EmbedderObject(self)),
    {
        agent.index(self).prototype
    }

    /// Sets the prototype link of the object.
    pub fn internal_set_prototype(self, agent: &mut Agent, prototype: Option<Object>)
        requires
            old(agent)@.occupied(Object::EmbedderObject(self)),
        ensures
            final(agent)@ == old(agent)@.with_prototype(Object::EmbedderObject(self), prototype),
            final(agent).counters() == old(agent).counters(),
    {
        let data = agent.index_mut(self);
        data.prototype = prototype;
    }
}

impl Object {
    /// The ordinary object that keeps the properties of the object, if
    /// there is one.
    pub fn get_backing_object(self, agent: &Agent) -> (backing: Option<OrdinaryObject>)
        requires
            agent@.occupied(self),
        ensures
            backing == agent@.backing_object(self),
    {
        match self {
            Object::Object(h) => h.get_backing_object(agent),
            Object::EmbedderObject(e) => e.get_backing_object(agent),
        }
    }

    /// Whether properties may be added to the object.
    pub fn internal_extensible(self, agent: &Agent) -> (extensible: bool)
        requires
            agent@.occupied(self),
        ensures
            extensible == agent@.extensible(self),
    {
        match self {
            Object::Object(h) => h.internal_extensible(agent),
            Object::EmbedderObject(e) => e.internal_extensible(agent),
        }
    }

    /// Sets whether properties may be added to the object.
    pub fn internal_set_extensible(self, agent: &mut Agent, value: bool)
        requires
            old(agent)@.occupied(self),
        ensures
            final(agent)@ == old(agent)@.with_extensible(self, value),
            final(agent).counters() == old(agent).counters(),
    {
        match self {
            Object::Object(h) => h.internal_set_extensible(agent, value),
            Object::EmbedderObject(e) => e.internal_set_extensible(agent, value),
        }
    }

    /// The prototype link of the object.
    pub fn internal_prototype(self, agent: &Agent) -> (prototype: Option<Object>)
        requires
            agent@.occupied(self),
        ensures
            prototype == agent@.prototype(self),
    {
        match self {
            Object::Object(h) => h.internal_prototype(agent),
            Object::EmbedderObject(e) => e.internal_prototype(agent),
        }
    }

    /// Sets the prototype link of the object.
    pub fn internal_set_prototype(self, agent: &mut Agent, prototype: Option<Object>)
        requires
            old(agent)@.occupied(self),
        ensures
            final(agent)@ == old(agent)@.with_prototype(self, prototype),
            final(agent).counters() == old(agent).counters(),
    {
        match self {
            Object::Object(h) => h.internal_set_prototype(agent, prototype),
            Object::EmbedderObject(e) => e.internal_set_prototype(agent, prototype),
        }
    }
}

} // verus!
