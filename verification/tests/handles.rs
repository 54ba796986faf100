use nova_vm::ecmascript::embedder_object::{EmbedderObject, EmbedderObjectHeapData};
use nova_vm::ecmascript::ordinary::{ObjectHeapData, OrdinaryObject};
use nova_vm::ecmascript::types::{Object, Value};
use nova_vm::engine::GcScope;
use nova_vm::heap::indexes::{BaseIndex, EmbedderObjectIndex};
use nova_vm::heap::{
    index_embedder_object, index_embedder_object_mut, index_object, index_object_mut, Heap,
};

fn embedder(host_data: u64) -> EmbedderObjectHeapData {
    EmbedderObjectHeapData { extensible: true, prototype: None, backing_object: None, host_data }
}

#[test]
fn sentinel_names_no_slot() {
    assert_eq!(EmbedderObject::_def().0.value, 0);
    assert_eq!(OrdinaryObject::_def().0.value, 0);
    assert!(BaseIndex::sentinel().is_unset());
    assert!(!BaseIndex::from_index(0).is_unset());
    assert_eq!(BaseIndex::sentinel().into_u32(), 0);
}

#[test]
fn allocation_never_hands_out_the_sentinel() {
    let mut heap = Heap::new(10);
    let first = heap.allocate_embedder_object(embedder(1));
    assert_ne!(first, EmbedderObject::_def());
    assert_eq!(first.0.value, 1);
    let first = heap.allocate_object(ObjectHeapData::new(None));
    assert_ne!(first, OrdinaryObject::_def());
    assert_eq!(first.0.value, 1);
}

#[test]
fn index_is_value_less_one() {
    assert_eq!(BaseIndex::from_u32_index(0).value, 1);
    assert_eq!(BaseIndex::from_u32_index(41).value, 42);
    assert_eq!(BaseIndex::from_index(41).into_index(), 41);
    assert_eq!(BaseIndex { value: 7 }.into_u32_index(), 6);
    assert_eq!(BaseIndex { value: 7 }.into_u32(), 7);
    assert_eq!(EmbedderObject(BaseIndex { value: 3 }).get_index(), 2);
    assert_eq!(OrdinaryObject(BaseIndex { value: 1 }).get_index(), 0);
    assert_eq!(BaseIndex::from_u32_index(u32::MAX - 1).value, u32::MAX);
}

#[test]
fn handles_are_ordered_by_their_number() {
    let a = EmbedderObject(BaseIndex { value: 1 });
    let b = EmbedderObject(BaseIndex { value: 2 });
    assert!(a < b);
    assert!(a == a);
    let mut handles = vec![b, a, b];
    handles.sort();
    handles.dedup();
    assert_eq!(handles, vec![a, b]);
}

#[test]
fn handles_of_different_kinds_differ() {
    let e = EmbedderObject(BaseIndex { value: 1 });
    let o = OrdinaryObject(BaseIndex { value: 1 });
    assert_ne!(Object::EmbedderObject(e), Object::Object(o));
    assert_ne!(Value::EmbedderObject(e), Value::Object(o));
}

#[test]
fn conversions_keep_the_handle() {
    let e = EmbedderObject(BaseIndex { value: 5 });
    assert_eq!(EmbedderObjectIndex::from(e), BaseIndex { value: 5 });
    assert_eq!(EmbedderObject::from(BaseIndex { value: 5 }), e);
    assert_eq!(Value::from(e), Value::EmbedderObject(e));
    assert_eq!(Object::from(e), Object::EmbedderObject(e));
    assert_eq!(e.into_value(), Value::EmbedderObject(e));
    assert_eq!(e.into_object(), Object::EmbedderObject(e));
    let o = OrdinaryObject(BaseIndex { value: 6 });
    assert_eq!(Value::from(o), Value::Object(o));
    assert_eq!(Object::from(o), Object::Object(o));
    assert_eq!(o.into_value(), Value::Object(o));
    assert_eq!(o.into_object(), Object::Object(o));
    assert_eq!(Object::Object(o).into_value(), Value::Object(o));
    assert_eq!(Value::Object(o).to_object(), Some(Object::Object(o)));
    assert_eq!(Value::EmbedderObject(e).to_object(), Some(Object::EmbedderObject(e)));
    assert_eq!(Value::Integer(1).to_object(), None);
    assert_eq!(Value::Undefined.to_object(), None);
}

#[test]
fn handles_stay_valid_while_nothing_is_collected() {
    let mut heap = Heap::new(1000);
    let mut handles = vec![];
    for i in 0..50 {
        handles.push(heap.allocate_embedder_object(embedder(i)));
        for (k, h) in handles.iter().enumerate() {
            assert_eq!(heap.embedder_object(*h).host_data, k as u64);
        }
    }
    let first = heap.allocate_object(ObjectHeapData::new(None));
    let second = heap.allocate_object(ObjectHeapData::new(Some(Object::Object(first))));
    assert_eq!(heap.object(first).prototype, None);
    assert_eq!(heap.object(second).prototype, Some(Object::Object(first)));
    assert_eq!(heap.embedder_object(handles[0]).host_data, 0);
    assert_eq!(heap.allocations, 52);
}

#[test]
fn resolution_gives_the_payload_to_change() {
    let mut heap = Heap::new(10);
    let a = heap.allocate_embedder_object(embedder(1));
    let b = heap.allocate_embedder_object(embedder(2));
    heap.embedder_object_mut(a).host_data = 11;
    assert_eq!(heap.embedder_object(a).host_data, 11);
    assert_eq!(heap.embedder_object(b).host_data, 2);
    assert_eq!(index_embedder_object(&heap.embedder_objects, b).host_data, 2);
    index_embedder_object_mut(&mut heap.embedder_objects, b).host_data = 22;
    assert_eq!(heap.embedder_object(b).host_data, 22);
    let o = heap.allocate_object(ObjectHeapData::new(None));
    heap.object_mut(o).extensible = false;
    assert!(!index_object(&heap.objects, o).extensible);
    index_object_mut(&mut heap.objects, o).extensible = true;
    assert!(heap.object(o).extensible);
}

#[test]
fn allocation_counter_saturates() {
    let mut heap = Heap::new(10);
    heap.allocations = usize::MAX;
    heap.allocate_embedder_object(embedder(1));
    assert_eq!(heap.allocations, usize::MAX);
    heap.allocate_object(ObjectHeapData::new(None));
    assert_eq!(heap.allocations, usize::MAX);
}

#[test]
fn scope_can_be_handed_on() {
    let mut gc = GcScope::new();
    let _inner = gc.reborrow();
    let _again = gc.reborrow();
}
