use nova_vm::ecmascript::embedder_object::{EmbedderObject, EmbedderObjectHeapData};
use nova_vm::ecmascript::execution::Agent;
use nova_vm::ecmascript::ordinary::{ObjectHeapData, OrdinaryObject, PropertyEntry};
use nova_vm::ecmascript::types::{JsError, Object, PropertyDescriptor, PropertyKey, Value};
use nova_vm::engine::GcScope;

fn embedder(host_data: u64) -> EmbedderObjectHeapData {
    EmbedderObjectHeapData { extensible: true, prototype: None, backing_object: None, host_data }
}

fn key(n: u32) -> PropertyKey {
    PropertyKey::Integer(n)
}

fn full(value: Value) -> PropertyDescriptor {
    PropertyDescriptor {
        value: Some(value),
        writable: Some(true),
        enumerable: Some(true),
        configurable: Some(true),
    }
}

fn only_value(value: Value) -> PropertyDescriptor {
    PropertyDescriptor { value: Some(value), writable: None, enumerable: None, configurable: None }
}

fn empty() -> PropertyDescriptor {
    PropertyDescriptor { value: None, writable: None, enumerable: None, configurable: None }
}

fn new_object(agent: &mut Agent, prototype: Option<Object>) -> OrdinaryObject {
    agent.heap.allocate_object(ObjectHeapData::new(prototype))
}

#[test]
fn prevent_extensions_then_is_extensible() {
    let mut agent = Agent::new(100);
    let o = new_object(&mut agent, None);
    let e = agent.heap.allocate_embedder_object(embedder(1));
    assert_eq!(o.internal_is_extensible(&mut agent, GcScope::new()), Ok(true));
    assert_eq!(e.internal_is_extensible(&mut agent, GcScope::new()), Ok(true));
    assert_eq!(o.internal_prevent_extensions(&mut agent, GcScope::new()), Ok(true));
    assert_eq!(e.internal_prevent_extensions(&mut agent, GcScope::new()), Ok(true));
    assert_eq!(o.internal_is_extensible(&mut agent, GcScope::new()), Ok(false));
    assert_eq!(e.internal_is_extensible(&mut agent, GcScope::new()), Ok(false));
    assert_eq!(Object::Object(o).internal_is_extensible(&mut agent, GcScope::new()), Ok(false));
    assert_eq!(e.internal_prevent_extensions(&mut agent, GcScope::new()), Ok(true));
    assert_eq!(e.internal_is_extensible(&mut agent, GcScope::new()), Ok(false));
    assert_eq!(agent.index(e).host_data, 1);
}

#[test]
fn set_prototype_then_get_prototype() {
    let mut agent = Agent::new(100);
    let p = new_object(&mut agent, None);
    let o = new_object(&mut agent, None);
    let e = agent.heap.allocate_embedder_object(embedder(1));
    assert_eq!(o.internal_get_prototype_of(&mut agent, GcScope::new()), Ok(None));
    let proto = Some(Object::Object(p));
    assert_eq!(o.internal_set_prototype_of(&mut agent, GcScope::new(), proto), Ok(true));
    assert_eq!(o.internal_get_prototype_of(&mut agent, GcScope::new()), Ok(proto));
    assert_eq!(e.internal_set_prototype_of(&mut agent, GcScope::new(), proto), Ok(true));
    assert_eq!(e.internal_get_prototype_of(&mut agent, GcScope::new()), Ok(proto));
    assert_eq!(e.internal_set_prototype_of(&mut agent, GcScope::new(), None), Ok(true));
    assert_eq!(e.internal_get_prototype_of(&mut agent, GcScope::new()), Ok(None));
    let proto = Some(Object::EmbedderObject(e));
    assert_eq!(p.internal_set_prototype_of(&mut agent, GcScope::new(), proto), Ok(true));
    assert_eq!(
        Object::Object(p).internal_get_prototype_of(&mut agent, GcScope::new()),
        Ok(proto)
    );
}

#[test]
fn set_prototype_refuses_a_circle() {
    let mut agent = Agent::new(100);
    let a = new_object(&mut agent, None);
    let b = new_object(&mut agent, Some(Object::Object(a)));
    let c = new_object(&mut agent, Some(Object::Object(b)));
    let to_c = Some(Object::Object(c));
    assert_eq!(a.internal_set_prototype_of(&mut agent, GcScope::new(), to_c), Ok(false));
    assert_eq!(a.internal_get_prototype_of(&mut agent, GcScope::new()), Ok(None));
    let to_a = Some(Object::Object(a));
    assert_eq!(a.internal_set_prototype_of(&mut agent, GcScope::new(), to_a), Ok(false));
    assert_eq!(a.internal_get_prototype_of(&mut agent, GcScope::new()), Ok(None));
    assert_eq!(c.internal_set_prototype_of(&mut agent, GcScope::new(), to_a), Ok(true));
    assert_eq!(c.internal_get_prototype_of(&mut agent, GcScope::new()), Ok(to_a));
}

#[test]
fn set_prototype_on_a_closed_object() {
    let mut agent = Agent::new(100);
    let p = new_object(&mut agent, None);
    let q = new_object(&mut agent, None);
    let o = new_object(&mut agent, Some(Object::Object(p)));
    o.internal_prevent_extensions(&mut agent, GcScope::new()).unwrap();
    let to_q = Some(Object::Object(q));
    let to_p = Some(Object::Object(p));
    assert_eq!(o.internal_set_prototype_of(&mut agent, GcScope::new(), to_q), Ok(false));
    assert_eq!(o.internal_get_prototype_of(&mut agent, GcScope::new()), Ok(to_p));
    assert_eq!(o.internal_set_prototype_of(&mut agent, GcScope::new(), None), Ok(false));
    assert_eq!(o.internal_set_prototype_of(&mut agent, GcScope::new(), to_p), Ok(true));
    assert_eq!(o.internal_get_prototype_of(&mut agent, GcScope::new()), Ok(to_p));
}

#[test]
fn define_then_get_own_property() {
    let mut agent = Agent::new(100);
    let o = new_object(&mut agent, None);
    assert_eq!(o.internal_get_own_property(&mut agent, GcScope::new(), key(1)), Ok(None));
    assert_eq!(
        o.internal_define_own_property(&mut agent, GcScope::new(), key(1), full(Value::Integer(7))),
        Ok(true)
    );
    assert_eq!(
        o.internal_get_own_property(&mut agent, GcScope::new(), key(1)),
        Ok(Some(full(Value::Integer(7))))
    );
    assert_eq!(o.internal_get_own_property(&mut agent, GcScope::new(), key(2)), Ok(None));
    assert_eq!(
        o.internal_get_own_property(&mut agent, GcScope::new(), PropertyKey::Symbol(1)),
        Ok(None)
    );
}

#[test]
fn define_with_absent_fields_takes_defaults() {
    let mut agent = Agent::new(100);
    let o = new_object(&mut agent, None);
    assert_eq!(
        o.internal_define_own_property(&mut agent, GcScope::new(), key(1), empty()),
        Ok(true)
    );
    assert_eq!(
        o.internal_get_own_property(&mut agent, GcScope::new(), key(1)),
        Ok(Some(PropertyDescriptor {
            value: Some(Value::Undefined),
            writable: Some(false),
            enumerable: Some(false),
            configurable: Some(false),
        }))
    );
}

#[test]
fn define_changes_only_the_fields_that_are_present() {
    let mut agent = Agent::new(100);
    let o = new_object(&mut agent, None);
    o.internal_define_own_property(&mut agent, GcScope::new(), key(1), full(Value::Integer(1)))
        .unwrap();
    let desc = PropertyDescriptor {
        value: None,
        writable: Some(false),
        enumerable: None,
        configurable: None,
    };
    assert_eq!(o.internal_define_own_property(&mut agent, GcScope::new(), key(1), desc), Ok(true));
    assert_eq!(
        o.internal_get_own_property(&mut agent, GcScope::new(), key(1)),
        Ok(Some(PropertyDescriptor {
            value: Some(Value::Integer(1)),
            writable: Some(false),
            enumerable: Some(true),
            configurable: Some(true),
        }))
    );
    assert_eq!(
        o.internal_define_own_property(
            &mut agent,
            GcScope::new(),
            key(1),
            only_value(Value::Boolean(true))
        ),
        Ok(true)
    );
    assert_eq!(agent.object(o).properties.len(), 1);
    assert_eq!(agent.object(o).properties[0].value, Value::Boolean(true));
}

#[test]
fn define_new_property_on_a_closed_object_fails() {
    let mut agent = Agent::new(100);
    let o = new_object(&mut agent, None);
    o.internal_define_own_property(&mut agent, GcScope::new(), key(1), full(Value::Integer(1)))
        .unwrap();
    o.internal_prevent_extensions(&mut agent, GcScope::new()).unwrap();
    assert_eq!(
        o.internal_define_own_property(&mut agent, GcScope::new(), key(2), full(Value::Null)),
        Err(JsError::NotExtensible)
    );
    assert_eq!(o.internal_get_own_property(&mut agent, GcScope::new(), key(2)), Ok(None));
    assert_eq!(agent.object(o).properties.len(), 1);
    // a property that is there can still change
    assert_eq!(
        o.internal_define_own_property(&mut agent, GcScope::new(), key(1), full(Value::Null)),
        Ok(true)
    );
}

#[test]
fn define_new_property_on_a_closed_embedder_object_fails() {
    let mut agent = Agent::new(100);
    let e = agent.heap.allocate_embedder_object(embedder(1));
    e.internal_prevent_extensions(&mut agent, GcScope::new()).unwrap();
    assert_eq!(
        e.internal_define_own_property(&mut agent, GcScope::new(), key(2), full(Value::Null)),
        Err(JsError::NotExtensible)
    );
    assert_eq!(e.get_backing_object(&agent), None);
    assert_eq!(agent.heap.objects.len(), 0);
    assert_eq!(agent.heap.allocations, 1);
}

#[test]
fn define_against_a_property_that_is_not_configurable() {
    let mut agent = Agent::new(100);
    let o = new_object(&mut agent, None);
    let fixed = PropertyDescriptor {
        value: Some(Value::Integer(1)),
        writable: Some(true),
        enumerable: Some(true),
        configurable: Some(false),
    };
    o.internal_define_own_property(&mut agent, GcScope::new(), key(1), fixed).unwrap();
    let ask_configurable = PropertyDescriptor { configurable: Some(true), ..empty() };
    assert_eq!(
        o.internal_define_own_property(&mut agent, GcScope::new(), key(1), ask_configurable),
        Err(JsError::NotConfigurable)
    );
    let ask_hidden = PropertyDescriptor { enumerable: Some(false), ..empty() };
    assert_eq!(
        o.internal_define_own_property(&mut agent, GcScope::new(), key(1), ask_hidden),
        Err(JsError::NotConfigurable)
    );
    let ask_same = PropertyDescriptor { enumerable: Some(true), configurable: Some(false), ..empty() };
    assert_eq!(o.internal_define_own_property(&mut agent, GcScope::new(), key(1), ask_same), Ok(true));
    // writable: the value may change, and writable may be switched off
    assert_eq!(
        o.internal_define_own_property(&mut agent, GcScope::new(), key(1), only_value(Value::Integer(2))),
        Ok(true)
    );
    let ask_frozen = PropertyDescriptor { writable: Some(false), ..empty() };
    assert_eq!(o.internal_define_own_property(&mut agent, GcScope::new(), key(1), ask_frozen), Ok(true));
    // now neither
    assert_eq!(
        o.internal_define_own_property(&mut agent, GcScope::new(), key(1), only_value(Value::Integer(3))),
        Err(JsError::NotWritable)
    );
    let ask_writable = PropertyDescriptor { writable: Some(true), ..empty() };
    assert_eq!(
        o.internal_define_own_property(&mut agent, GcScope::new(), key(1), ask_writable),
        Err(JsError::NotWritable)
    );
    assert_eq!(
        o.internal_define_own_property(&mut agent, GcScope::new(), key(1), only_value(Value::Integer(2))),
        Ok(true)
    );
    assert_eq!(o.internal_define_own_property(&mut agent, GcScope::new(), key(1), empty()), Ok(true));
    assert_eq!(
        agent.object(o).properties,
        vec![PropertyEntry {
            key: key(1),
            value: Value::Integer(2),
            writable: false,
            enumerable: true,
            configurable: false,
        }]
    );
}

#[test]
fn embedder_object_gets_its_backing_object_with_its_first_property() {
    let mut agent = Agent::new(100);
    let _other = new_object(&mut agent, None);
    let e = agent.heap.allocate_embedder_object(embedder(9));
    assert_eq!(e.get_backing_object(&agent), None);
    assert_eq!(e.internal_get_own_property(&mut agent, GcScope::new(), key(1)), Ok(None));
    assert_eq!(e.internal_has_property(&mut agent, GcScope::new(), key(1)), Ok(false));
    assert_eq!(e.internal_delete(&mut agent, GcScope::new(), key(1)), Ok(true));
    assert_eq!(e.internal_own_property_keys(&mut agent, GcScope::new()), Ok(vec![]));
    assert_eq!(e.get_backing_object(&agent), None);
    assert_eq!(
        e.internal_define_own_property(&mut agent, GcScope::new(), key(1), full(Value::Integer(3))),
        Ok(true)
    );
    let backing = e.get_backing_object(&agent).unwrap();
    assert_eq!(backing.0.value, 2);
    assert_eq!(Object::EmbedderObject(e).get_backing_object(&agent), Some(backing));
    assert_eq!(agent.object(backing).prototype, None);
    assert!(agent.object(backing).extensible);
    assert_eq!(agent.index(e).host_data, 9);
    assert_eq!(
        e.internal_get_own_property(&mut agent, GcScope::new(), key(1)),
        Ok(Some(full(Value::Integer(3))))
    );
    e.internal_define_own_property(&mut agent, GcScope::new(), key(2), full(Value::Null)).unwrap();
    assert_eq!(e.get_backing_object(&agent), Some(backing));
    assert_eq!(agent.heap.objects.len(), 2);
    assert_eq!(e.internal_own_property_keys(&mut agent, GcScope::new()), Ok(vec![key(1), key(2)]));
}

#[test]
fn slots_of_an_embedder_object() {
    let mut agent = Agent::new(100);
    let p = new_object(&mut agent, None);
    let e = agent.heap.allocate_embedder_object(embedder(9));
    assert!(e.internal_extensible(&agent));
    e.internal_set_extensible(&mut agent, false);
    assert!(!e.internal_extensible(&agent));
    e.internal_set_extensible(&mut agent, true);
    assert!(e.internal_extensible(&agent));
    assert_eq!(e.internal_prototype(&agent), None);
    e.internal_set_prototype(&mut agent, Some(Object::Object(p)));
    assert_eq!(e.internal_prototype(&agent), Some(Object::Object(p)));
    e.set_backing_object(&mut agent, p);
    assert_eq!(e.get_backing_object(&agent), Some(p));
    let created = e.create_backing_object(&mut agent);
    assert_eq!(created.0.value, 2);
    assert_eq!(e.get_backing_object(&agent), Some(created));
    assert!(agent.object(created).properties.is_empty());
    assert_eq!(agent.index(e).host_data, 9);
}

#[test]
fn slots_of_an_ordinary_object() {
    let mut agent = Agent::new(100);
    let p = new_object(&mut agent, None);
    let o = new_object(&mut agent, None);
    assert_eq!(o.get_backing_object(&agent), Some(o));
    assert!(o.internal_extensible(&agent));
    o.internal_set_extensible(&mut agent, false);
    assert!(!o.internal_extensible(&agent));
    assert!(p.internal_extensible(&agent));
    assert_eq!(o.internal_prototype(&agent), None);
    o.internal_set_prototype(&mut agent, Some(Object::Object(p)));
    assert_eq!(o.internal_prototype(&agent), Some(Object::Object(p)));
    let any = Object::Object(o);
    assert!(!any.internal_extensible(&agent));
    any.internal_set_extensible(&mut agent, true);
    assert!(any.internal_extensible(&agent));
    any.internal_set_prototype(&mut agent, None);
    assert_eq!(any.internal_prototype(&agent), None);
}

#[test]
fn has_and_get_follow_the_prototype_chain() {
    let mut agent = Agent::new(100);
    let top = new_object(&mut agent, None);
    let middle = agent.heap.allocate_embedder_object(EmbedderObjectHeapData {
        prototype: Some(Object::Object(top)),
        ..embedder(0)
    });
    let bottom = new_object(&mut agent, Some(Object::EmbedderObject(middle)));
    top.internal_define_own_property(&mut agent, GcScope::new(), key(1), full(Value::Integer(1)))
        .unwrap();
    top.internal_define_own_property(&mut agent, GcScope::new(), key(2), full(Value::Integer(2)))
        .unwrap();
    middle
        .internal_define_own_property(&mut agent, GcScope::new(), key(2), full(Value::Integer(20)))
        .unwrap();
    bottom
        .internal_define_own_property(&mut agent, GcScope::new(), key(3), full(Value::Integer(300)))
        .unwrap();
    let receiver = Value::Object(bottom);
    assert_eq!(bottom.internal_has_property(&mut agent, GcScope::new(), key(1)), Ok(true));
    assert_eq!(bottom.internal_has_property(&mut agent, GcScope::new(), key(2)), Ok(true));
    assert_eq!(bottom.internal_has_property(&mut agent, GcScope::new(), key(3)), Ok(true));
    assert_eq!(bottom.internal_has_property(&mut agent, GcScope::new(), key(4)), Ok(false));
    assert_eq!(top.internal_has_property(&mut agent, GcScope::new(), key(3)), Ok(false));
    assert_eq!(bottom.internal_get(&mut agent, GcScope::new(), key(1), receiver), Ok(Value::Integer(1)));
    assert_eq!(bottom.internal_get(&mut agent, GcScope::new(), key(2), receiver), Ok(Value::Integer(20)));
    assert_eq!(bottom.internal_get(&mut agent, GcScope::new(), key(3), receiver), Ok(Value::Integer(300)));
    assert_eq!(bottom.internal_get(&mut agent, GcScope::new(), key(4), receiver), Ok(Value::Undefined));
    assert_eq!(middle.internal_get(&mut agent, GcScope::new(), key(2), receiver), Ok(Value::Integer(20)));
    assert_eq!(top.internal_get(&mut agent, GcScope::new(), key(2), receiver), Ok(Value::Integer(2)));
    assert_eq!(
        Object::Object(bottom).lookup(&agent, key(2)).map(|e| e.value),
        Some(Value::Integer(20))
    );
    assert_eq!(Object::Object(bottom).own_property(&agent, key(2)), None);
    assert!(Object::Object(top).on_chain_of(&agent, Object::Object(bottom)));
    assert!(!Object::Object(bottom).on_chain_of(&agent, Object::Object(top)));
    assert!(Object::Object(top).on_chain_of(&agent, Object::Object(top)));
}

#[test]
fn set_writes_to_the_receiver() {
    let mut agent = Agent::new(100);
    let parent = new_object(&mut agent, None);
    let child = new_object(&mut agent, Some(Object::Object(parent)));
    parent
        .internal_define_own_property(&mut agent, GcScope::new(), key(1), full(Value::Integer(1)))
        .unwrap();
    let receiver = Value::Object(child);
    assert_eq!(
        child.internal_set(&mut agent, GcScope::new(), key(1), Value::Integer(5), receiver),
        Ok(true)
    );
    assert_eq!(
        child.internal_get_own_property(&mut agent, GcScope::new(), key(1)),
        Ok(Some(full(Value::Integer(5))))
    );
    assert_eq!(parent.internal_get(&mut agent, GcScope::new(), key(1), receiver), Ok(Value::Integer(1)));
    // once more: the own property is changed in place
    assert_eq!(
        child.internal_set(&mut agent, GcScope::new(), key(1), Value::Integer(6), receiver),
        Ok(true)
    );
    assert_eq!(agent.object(child).properties.len(), 1);
    assert_eq!(child.internal_get(&mut agent, GcScope::new(), key(1), receiver), Ok(Value::Integer(6)));
    // a property that nobody has is created with every attribute on
    assert_eq!(
        child.internal_set(&mut agent, GcScope::new(), key(2), Value::Null, receiver),
        Ok(true)
    );
    assert_eq!(
        child.internal_get_own_property(&mut agent, GcScope::new(), key(2)),
        Ok(Some(full(Value::Null)))
    );
}

#[test]
fn set_is_refused() {
    let mut agent = Agent::new(100);
    let parent = new_object(&mut agent, None);
    let child = new_object(&mut agent, Some(Object::Object(parent)));
    let read_only = PropertyDescriptor { writable: Some(false), ..full(Value::Integer(1)) };
    parent.internal_define_own_property(&mut agent, GcScope::new(), key(1), read_only).unwrap();
    let receiver = Value::Object(child);
    // inherited property is not writable
    assert_eq!(
        child.internal_set(&mut agent, GcScope::new(), key(1), Value::Integer(5), receiver),
        Ok(false)
    );
    assert_eq!(child.internal_get_own_property(&mut agent, GcScope::new(), key(1)), Ok(None));
    // receiver is no object
    assert_eq!(
        child.internal_set(&mut agent, GcScope::new(), key(2), Value::Integer(5), Value::Integer(0)),
        Ok(false)
    );
    assert_eq!(
        child.internal_set(&mut agent, GcScope::new(), key(2), Value::Integer(5), Value::Undefined),
        Ok(false)
    );
    // receiver's own property is not writable
    let other = new_object(&mut agent, None);
    other.internal_define_own_property(&mut agent, GcScope::new(), key(3), read_only).unwrap();
    parent
        .internal_define_own_property(&mut agent, GcScope::new(), key(3), full(Value::Null))
        .unwrap();
    assert_eq!(
        child.internal_set(&mut agent, GcScope::new(), key(3), Value::Integer(5), Value::Object(other)),
        Ok(false)
    );
    assert_eq!(agent.object(other).properties[0].value, Value::Integer(1));
    // receiver takes no new property
    child.internal_prevent_extensions(&mut agent, GcScope::new()).unwrap();
    assert_eq!(
        child.internal_set(&mut agent, GcScope::new(), key(4), Value::Integer(5), receiver),
        Err(JsError::NotExtensible)
    );
    assert_eq!(child.internal_has_property(&mut agent, GcScope::new(), key(4)), Ok(false));
}

#[test]
fn set_creates_the_backing_object_of_an_embedder_receiver() {
    let mut agent = Agent::new(100);
    let o = new_object(&mut agent, None);
    let e = agent.heap.allocate_embedder_object(embedder(1));
    assert_eq!(
        o.internal_set(&mut agent, GcScope::new(), key(1), Value::Object(o), Value::EmbedderObject(e)),
        Ok(true)
    );
    assert_eq!(o.internal_get_own_property(&mut agent, GcScope::new(), key(1)), Ok(None));
    assert_eq!(
        e.internal_get(&mut agent, GcScope::new(), key(1), Value::EmbedderObject(e)),
        Ok(Value::Object(o))
    );
    assert!(e.get_backing_object(&agent).is_some());
}

#[test]
fn delete_removes_what_is_configurable() {
    let mut agent = Agent::new(100);
    let o = new_object(&mut agent, None);
    for n in 1..=3 {
        o.internal_define_own_property(&mut agent, GcScope::new(), key(n), full(Value::Integer(n as i32)))
            .unwrap();
    }
    let fixed = PropertyDescriptor { configurable: Some(false), ..full(Value::Null) };
    o.internal_define_own_property(&mut agent, GcScope::new(), key(4), fixed).unwrap();
    assert_eq!(o.internal_delete(&mut agent, GcScope::new(), key(2)), Ok(true));
    assert_eq!(o.internal_own_property_keys(&mut agent, GcScope::new()), Ok(vec![key(1), key(3), key(4)]));
    assert_eq!(o.internal_delete(&mut agent, GcScope::new(), key(2)), Ok(true));
    assert_eq!(o.internal_delete(&mut agent, GcScope::new(), key(4)), Ok(false));
    assert_eq!(o.internal_own_property_keys(&mut agent, GcScope::new()), Ok(vec![key(1), key(3), key(4)]));
    assert_eq!(o.internal_has_property(&mut agent, GcScope::new(), key(2)), Ok(false));
    assert_eq!(o.internal_get(&mut agent, GcScope::new(), key(3), Value::Null), Ok(Value::Integer(3)));
    // a deleted name can come back, at the end of the properties
    o.internal_define_own_property(&mut agent, GcScope::new(), key(2), full(Value::Null)).unwrap();
    assert_eq!(agent.object(o).properties[3].key, key(2));
    assert_eq!(
        o.internal_own_property_keys(&mut agent, GcScope::new()),
        Ok(vec![key(1), key(2), key(3), key(4)])
    );
}

#[test]
fn keys_come_integers_first_then_symbols() {
    let mut agent = Agent::new(100);
    let o = new_object(&mut agent, None);
    assert_eq!(o.internal_own_property_keys(&mut agent, GcScope::new()), Ok(vec![]));
    let defined = vec![
        key(5),
        PropertyKey::Symbol(5),
        key(1),
        PropertyKey::Symbol(0),
        key(u32::MAX),
        key(0),
        key(3),
    ];
    for k in defined.iter() {
        o.internal_define_own_property(&mut agent, GcScope::new(), *k, full(Value::Null)).unwrap();
    }
    let seen = vec![
        key(0),
        key(1),
        key(3),
        key(5),
        key(u32::MAX),
        PropertyKey::Symbol(5),
        PropertyKey::Symbol(0),
    ];
    assert_eq!(o.internal_own_property_keys(&mut agent, GcScope::new()), Ok(seen.clone()));
    assert_eq!(
        Object::Object(o).internal_own_property_keys(&mut agent, GcScope::new()),
        Ok(seen.clone())
    );
    assert_eq!(agent.object(o).keys(), seen);
    let stored: Vec<PropertyKey> = agent.object(o).properties.iter().map(|e| e.key).collect();
    assert_eq!(stored, defined);
    assert_eq!(agent.object(o).find(key(1)), Some(2));
    assert_eq!(agent.object(o).find(key(2)), None);
    assert_eq!(agent.object(o).get(PropertyKey::Symbol(5)).map(|e| e.key), Some(PropertyKey::Symbol(5)));
}

#[test]
fn keys_of_symbols_only_and_of_integers_only() {
    let mut data = ObjectHeapData::new(None);
    for n in [3, 1, 2] {
        data.define(true, PropertyKey::Symbol(n), full(Value::Null)).unwrap();
    }
    assert_eq!(
        data.keys(),
        vec![PropertyKey::Symbol(3), PropertyKey::Symbol(1), PropertyKey::Symbol(2)]
    );
    let mut data = ObjectHeapData::new(None);
    for n in [3, 1, 2] {
        data.define(true, key(n), full(Value::Null)).unwrap();
    }
    assert_eq!(data.keys(), vec![key(1), key(2), key(3)]);
}

#[test]
fn property_store_on_its_own() {
    let mut data = ObjectHeapData::new(None);
    assert_eq!(data.define(false, key(1), full(Value::Null)), Err(JsError::NotExtensible));
    assert_eq!(data.define(true, key(1), full(Value::Null)), Ok(true));
    assert_eq!(data.define(false, key(1), full(Value::Integer(1))), Ok(true));
    assert_eq!(data.get(key(1)).unwrap().value, Value::Integer(1));
    assert!(data.delete(key(9)));
    assert!(data.delete(key(1)));
    assert!(data.properties.is_empty());
}

#[test]
fn operations_leave_other_objects_alone() {
    let mut agent = Agent::new(100);
    let a = new_object(&mut agent, None);
    let b = new_object(&mut agent, None);
    let e = agent.heap.allocate_embedder_object(embedder(4));
    a.internal_define_own_property(&mut agent, GcScope::new(), key(1), full(Value::Integer(1)))
        .unwrap();
    a.internal_prevent_extensions(&mut agent, GcScope::new()).unwrap();
    a.internal_set_prototype_of(&mut agent, GcScope::new(), Some(Object::Object(b))).unwrap();
    assert!(agent.object(b).extensible);
    assert!(agent.object(b).properties.is_empty());
    assert_eq!(agent.object(b).prototype, None);
    assert_eq!(*agent.index(e), embedder(4));
    assert_eq!(agent.heap.allocations, 3);
}

#[test]
fn properties_survive_a_collection() {
    let mut agent = Agent::new(100);
    let _garbage = new_object(&mut agent, None);
    let target = new_object(&mut agent, None);
    let e = agent.heap.allocate_embedder_object(embedder(1));
    e.internal_define_own_property(&mut agent, GcScope::new(), key(1), full(Value::Object(target)))
        .unwrap();
    let mut roots = vec![Object::EmbedderObject(e)];
    let lists = agent.gc(&mut roots);
    let mut moved_target = target;
    moved_target.sweep_values(&lists);
    assert_eq!(moved_target.0.value, 1);
    let e = match roots[0] {
        Object::EmbedderObject(e) => e,
        Object::Object(_) => panic!("the root changed its kind"),
    };
    assert_eq!(
        e.internal_get(&mut agent, GcScope::new(), key(1), Value::Undefined),
        Ok(Value::Object(moved_target))
    );
    assert_eq!(agent.heap.objects.len(), 2);
    assert_eq!(EmbedderObject::_def().0.value, 0);
}
