//! Values, handles to objects of any kind, property names and descriptors.

use vstd::prelude::*;
use crate::ecmascript::embedder_object::EmbedderObject;
use crate::ecmascript::ordinary::OrdinaryObject;

verus! {

/// A handle to an object of any kind: the kind, and the handle in the arena
/// of that kind.
#[derive(Clone, Copy, Debug, PartialEq, Eq, Structural, Hash)]
pub enum Object {
    Object(OrdinaryObject),
    EmbedderObject(EmbedderObject),
}

/// A value of the language: one that stands for itself, or a handle to an
/// object.
#[derive(Clone, Copy, Debug, PartialEq, Eq, Structural, Hash)]
pub enum Value {
    Undefined,
    Null,
    Boolean(bool),
    Integer(i32),
    Object(OrdinaryObject),
    EmbedderObject(EmbedderObject),
}

/// The name of a property.
#[derive(Clone, Copy, Debug, PartialEq, Eq, Structural, Hash)]
pub enum PropertyKey {
    Integer(u32),
    Symbol(u32),
}

/// A request to define a property or to change one: each field that is
/// present is asked for, each that is absent is left as it is.
#[derive(Clone, Copy, Debug, PartialEq, Eq, Structural)]
pub struct PropertyDescriptor {
    pub value: Option<Value>,
    pub writable: Option<bool>,
    pub enumerable: Option<bool>,
    pub configurable: Option<bool>,
}

/// A failure that the running script sees as an exception.
#[derive(Clone, Copy, Debug, PartialEq, Eq, Structural)]
pub enum JsError {
    /// A property was to be added to an object that takes no more.
    NotExtensible,
    /// An attribute of a property that is not configurable was to change.
    NotConfigurable,
    /// The value of a property that is neither writable nor configurable was
    /// to change, or the property was to become writable again.
    NotWritable,
}

/// What an operation of the object model returns: its value, or the failure
/// that the script sees.
pub type JsResult<T> = Result<T, JsError>;

impl Value {
    /// The object that the value is a handle to, if it is one.
    pub open spec fn as_object(self) -> Option<Object> {
        match self {
            Value::Object(o) => Some(Object::Object(o)),
            Value::EmbedderObject(e) => Some(Object::EmbedderObject(e)),
            _ => None,
        }
    }

    /// The handles that the value holds: one, or none.
    pub open spec fn refs(self) -> Seq<Object> {
        match self.as_object() {
            Some(o) => seq![o],
            None => Seq::empty(),
        }
    }

    /// The object that the value is a handle to, if it is one.
    pub fn to_object(self) -> (r: Option<Object>)
        ensures
            r == self.as_object(),
    {
        match self {
            Value::Object(o) => Some(Object::Object(o)),
            Value::EmbedderObject(e) => Some(Object::EmbedderObject(e)),
            _ => None,
        }
    }
}

impl Object {
    /// The object as a value.
    pub open spec fn value(self) -> Value {
        match self {
            Object::Object(o) => Value::Object(o),
            Object::EmbedderObject(e) => Value::EmbedderObject(e),
        }
    }

    /// The object as a value.
    pub fn into_value(self) -> (v: Value)
        ensures
            v == self.value(),
            v.as_object() == Some(self),
    {
        match self {
            Object::Object(o) => Value::Object(o),
            Object::EmbedderObject(e) => Value::EmbedderObject(e),
        }
    }
}

/// The handles that an optional handle holds: one, or none.
pub open spec fn option_refs(o: Option<Object>) -> Seq<Object> {
    match o {
        Some(o) => seq![o],
        None => Seq::empty(),
    }
}

} // verus!
