use nova_vm::ecmascript::embedder_object::{EmbedderObject, EmbedderObjectHeapData};
use nova_vm::ecmascript::execution::Agent;
use nova_vm::ecmascript::ordinary::{ObjectHeapData, OrdinaryObject, PropertyEntry};
use nova_vm::ecmascript::types::{Object, PropertyKey, Value};
use nova_vm::heap::compaction::{CompactionList, CompactionLists};
use nova_vm::heap::gc::heap_gc;
use nova_vm::heap::indexes::BaseIndex;
use nova_vm::heap::mark::{mark, HeapBits, WorkQueues};
use nova_vm::heap::sweep::{sweep_heap_vector, sweep_roots, take_slot};
use nova_vm::heap::Heap;

fn embedder(host_data: u64) -> EmbedderObjectHeapData {
    EmbedderObjectHeapData { extensible: true, prototype: None, backing_object: None, host_data }
}

fn entry(key: u32, value: Value) -> PropertyEntry {
    PropertyEntry {
        key: PropertyKey::Integer(key),
        value,
        writable: true,
        enumerable: true,
        configurable: true,
    }
}

fn object(prototype: Option<Object>, properties: Vec<PropertyEntry>) -> ObjectHeapData {
    ObjectHeapData { extensible: true, prototype, properties }
}

#[test]
fn collection_keeps_first_and_third_of_three() {
    let mut heap = Heap::new(100);
    let first = heap.allocate_embedder_object(embedder(10));
    let second = heap.allocate_embedder_object(embedder(20));
    let third = heap.allocate_embedder_object(embedder(30));
    assert_eq!(first.0.value, 1);
    assert_eq!(second.0.value, 2);
    assert_eq!(third.0.value, 3);

    let mut roots = vec![Object::EmbedderObject(first), Object::EmbedderObject(third)];
    let compactions = heap_gc(&mut heap, &mut roots);

    assert_eq!(heap.embedder_objects.len(), 2);
    assert_eq!(heap.embedder_object(first).host_data, 10);
    assert_eq!(compactions.embedder_objects.get(0), Some(0));
    assert_eq!(compactions.embedder_objects.get(1), None);
    assert_eq!(compactions.embedder_objects.get(2), Some(1));
    assert_eq!(compactions.embedder_objects.get(3), None);
    let mut moved = third;
    moved.sweep_values(&compactions);
    assert_eq!(moved.0.value, 2);
    assert_eq!(heap.embedder_object(moved).host_data, 30);
    assert_eq!(*heap.embedder_object(moved), embedder(30));
    assert_eq!(roots, vec![Object::EmbedderObject(first), Object::EmbedderObject(moved)]);
}

#[test]
fn collection_keeps_first_and_third_of_three_ordinary_objects() {
    let mut heap = Heap::new(100);
    let first = heap.allocate_object(object(None, vec![entry(1, Value::Integer(10))]));
    let _second = heap.allocate_object(object(None, vec![entry(2, Value::Integer(20))]));
    let third = heap.allocate_object(object(None, vec![entry(3, Value::Integer(30))]));
    let mut roots = vec![Object::Object(third), Object::Object(first)];
    heap_gc(&mut heap, &mut roots);
    assert_eq!(heap.objects.len(), 2);
    assert_eq!(roots[0], Object::Object(OrdinaryObject(BaseIndex { value: 2 })));
    assert_eq!(roots[1], Object::Object(first));
    assert_eq!(heap.object(first).properties, vec![entry(1, Value::Integer(10))]);
    let moved = OrdinaryObject(BaseIndex { value: 2 });
    assert_eq!(heap.object(moved).properties, vec![entry(3, Value::Integer(30))]);
}

#[test]
fn collection_follows_handles_inside_payloads() {
    let mut heap = Heap::new(100);
    let garbage = heap.allocate_object(object(None, vec![]));
    let prototype = heap.allocate_object(object(None, vec![entry(7, Value::Boolean(true))]));
    let _more_garbage = heap.allocate_embedder_object(embedder(1));
    let host = heap.allocate_embedder_object(embedder(2));
    let holder = heap.allocate_object(object(
        Some(Object::Object(prototype)),
        vec![entry(1, Value::Integer(5)), entry(2, Value::EmbedderObject(host)), entry(3, Value::Null)],
    ));
    assert_eq!(garbage.0.value, 1);
    assert_eq!(holder.0.value, 3);
    assert_eq!(host.0.value, 2);

    let mut roots = vec![Object::Object(holder)];
    let compactions = heap_gc(&mut heap, &mut roots);

    assert_eq!(heap.objects.len(), 2);
    assert_eq!(heap.embedder_objects.len(), 1);
    let new_prototype = OrdinaryObject(BaseIndex { value: 1 });
    let new_holder = OrdinaryObject(BaseIndex { value: 2 });
    let new_host = EmbedderObject(BaseIndex { value: 1 });
    assert_eq!(roots, vec![Object::Object(new_holder)]);
    let data = heap.object(new_holder);
    assert_eq!(data.prototype, Some(Object::Object(new_prototype)));
    assert_eq!(
        data.properties,
        vec![
            entry(1, Value::Integer(5)),
            entry(2, Value::EmbedderObject(new_host)),
            entry(3, Value::Null)
        ]
    );
    assert_eq!(heap.object(new_prototype).properties, vec![entry(7, Value::Boolean(true))]);
    assert_eq!(heap.embedder_object(new_host).host_data, 2);
    assert_eq!(compactions.objects.get(0), None);
    assert_eq!(compactions.objects.get(1), Some(0));
    assert_eq!(compactions.objects.get(2), Some(1));
    assert_eq!(compactions.embedder_objects.get(0), None);
    assert_eq!(compactions.embedder_objects.get(1), Some(0));
}

#[test]
fn collection_renumbers_backing_object_and_prototype_of_embedder_object() {
    let mut heap = Heap::new(100);
    let _garbage = heap.allocate_object(object(None, vec![]));
    let backing = heap.allocate_object(object(None, vec![entry(1, Value::Integer(1))]));
    let _garbage = heap.allocate_embedder_object(embedder(0));
    let parent = heap.allocate_embedder_object(embedder(1));
    let child = heap.allocate_embedder_object(EmbedderObjectHeapData {
        extensible: false,
        prototype: Some(Object::EmbedderObject(parent)),
        backing_object: Some(backing),
        host_data: 2,
    });
    let mut roots = vec![Object::EmbedderObject(child)];
    heap_gc(&mut heap, &mut roots);
    assert_eq!(heap.objects.len(), 1);
    assert_eq!(heap.embedder_objects.len(), 2);
    let new_child = EmbedderObject(BaseIndex { value: 2 });
    assert_eq!(roots, vec![Object::EmbedderObject(new_child)]);
    assert_eq!(
        *heap.embedder_object(new_child),
        EmbedderObjectHeapData {
            extensible: false,
            prototype: Some(Object::EmbedderObject(EmbedderObject(BaseIndex { value: 1 }))),
            backing_object: Some(OrdinaryObject(BaseIndex { value: 1 })),
            host_data: 2,
        }
    );
}

#[test]
fn collection_without_roots_frees_everything() {
    let mut heap = Heap::new(100);
    heap.allocate_object(object(None, vec![]));
    heap.allocate_embedder_object(embedder(1));
    let mut roots = vec![];
    heap_gc(&mut heap, &mut roots);
    assert_eq!(heap.objects.len(), 0);
    assert_eq!(heap.embedder_objects.len(), 0);
    assert!(roots.is_empty());
}

#[test]
fn collection_of_an_empty_heap() {
    let mut heap = Heap::new(0);
    let mut roots = vec![];
    let compactions = heap_gc(&mut heap, &mut roots);
    assert_eq!(heap.objects.len(), 0);
    assert_eq!(compactions.objects.positions.len(), 0);
    assert_eq!(compactions.embedder_objects.positions.len(), 0);
}

#[test]
fn collection_keeps_everything_that_is_reachable() {
    let mut heap = Heap::new(100);
    let a = heap.allocate_object(object(None, vec![]));
    let b = heap.allocate_object(object(Some(Object::Object(a)), vec![]));
    let c = heap.allocate_object(object(Some(Object::Object(b)), vec![]));
    let mut roots = vec![Object::Object(c), Object::Object(c)];
    heap_gc(&mut heap, &mut roots);
    assert_eq!(heap.objects.len(), 3);
    assert_eq!(roots, vec![Object::Object(c), Object::Object(c)]);
    assert_eq!(heap.object(c).prototype, Some(Object::Object(b)));
    assert_eq!(heap.object(b).prototype, Some(Object::Object(a)));
    assert_eq!(heap.object(a).prototype, None);
}

#[test]
fn collection_handles_cycles_of_properties() {
    let mut heap = Heap::new(100);
    let _garbage = heap.allocate_object(object(None, vec![]));
    let a = heap.allocate_object(object(None, vec![]));
    let b = heap.allocate_object(object(None, vec![entry(1, Value::Object(a))]));
    heap.object_mut(a).properties.push(entry(1, Value::Object(b)));
    heap.object_mut(a).properties.push(entry(2, Value::Object(a)));
    let mut roots = vec![Object::Object(a)];
    heap_gc(&mut heap, &mut roots);
    let new_a = OrdinaryObject(BaseIndex { value: 1 });
    let new_b = OrdinaryObject(BaseIndex { value: 2 });
    assert_eq!(heap.objects.len(), 2);
    assert_eq!(
        heap.object(new_a).properties,
        vec![entry(1, Value::Object(new_b)), entry(2, Value::Object(new_a))]
    );
    assert_eq!(heap.object(new_b).properties, vec![entry(1, Value::Object(new_a))]);
}

#[test]
fn survivors_keep_their_order() {
    let mut heap = Heap::new(100);
    let mut handles = vec![];
    for i in 0..10 {
        handles.push(heap.allocate_embedder_object(embedder(i)));
    }
    let mut roots = vec![
        Object::EmbedderObject(handles[8]),
        Object::EmbedderObject(handles[1]),
        Object::EmbedderObject(handles[5]),
    ];
    heap_gc(&mut heap, &mut roots);
    assert_eq!(heap.embedder_objects.len(), 3);
    let hosts: Vec<u64> =
        heap.embedder_objects.iter().map(|slot| slot.as_ref().unwrap().host_data).collect();
    assert_eq!(hosts, vec![1, 5, 8]);
    assert_eq!(
        roots,
        vec![
            Object::EmbedderObject(EmbedderObject(BaseIndex { value: 3 })),
            Object::EmbedderObject(EmbedderObject(BaseIndex { value: 1 })),
            Object::EmbedderObject(EmbedderObject(BaseIndex { value: 2 })),
        ]
    );
}

#[test]
fn no_handle_dangles_after_collection() {
    let mut heap = Heap::new(100);
    let _g1 = heap.allocate_object(object(None, vec![]));
    let a = heap.allocate_object(object(None, vec![]));
    let _g2 = heap.allocate_object(object(None, vec![]));
    let b = heap.allocate_object(object(Some(Object::Object(a)), vec![entry(1, Value::Object(a))]));
    let mut roots = vec![Object::Object(b)];
    heap_gc(&mut heap, &mut roots);
    for slot in heap.objects.iter() {
        let data = slot.as_ref().unwrap();
        if let Some(Object::Object(p)) = data.prototype {
            assert!(heap.objects[p.get_index()].is_some());
        }
        for property in data.properties.iter() {
            if let Value::Object(h) = property.value {
                assert!(heap.objects[h.get_index()].is_some());
            }
        }
    }
    for root in roots.iter() {
        if let Object::Object(h) = root {
            assert!(heap.objects[h.get_index()].is_some());
        }
    }
}

#[test]
fn marking_finds_what_is_reachable() {
    let mut heap = Heap::new(100);
    let a = heap.allocate_object(object(None, vec![]));
    let _b = heap.allocate_object(object(Some(Object::Object(a)), vec![]));
    let e = heap.allocate_embedder_object(EmbedderObjectHeapData {
        extensible: true,
        prototype: None,
        backing_object: Some(a),
        host_data: 0,
    });
    let _f = heap.allocate_embedder_object(embedder(1));
    let bits = mark(&heap, &vec![Object::EmbedderObject(e)]);
    assert_eq!(bits.objects, vec![true, false]);
    assert_eq!(bits.embedder_objects, vec![true, false]);
    let none = HeapBits::new(&heap);
    assert_eq!(none.objects, vec![false, false]);
    assert_eq!(none.embedder_objects, vec![false, false]);
}

#[test]
fn mark_values_puts_handles_into_the_queue_of_their_kind() {
    let mut queues = WorkQueues::new();
    assert!(queues.is_empty());
    let e = EmbedderObject(BaseIndex { value: 4 });
    let h = OrdinaryObject(BaseIndex { value: 9 });
    e.mark_values(&mut queues);
    assert_eq!(queues.embedder_objects, vec![e]);
    assert!(queues.objects.is_empty());
    assert!(!queues.is_empty());
    Value::Object(h).mark_values(&mut queues);
    Value::Integer(3).mark_values(&mut queues);
    Object::EmbedderObject(e).mark_values(&mut queues);
    assert_eq!(queues.objects, vec![h]);
    assert_eq!(queues.embedder_objects, vec![e, e]);
    let data = object(
        Some(Object::EmbedderObject(e)),
        vec![entry(1, Value::Object(h)), entry(2, Value::Undefined), entry(3, Value::EmbedderObject(e))],
    );
    let mut queues = WorkQueues::new();
    data.mark_values(&mut queues);
    assert_eq!(queues.objects, vec![h]);
    assert_eq!(queues.embedder_objects, vec![e, e]);
    let data = EmbedderObjectHeapData {
        extensible: true,
        prototype: Some(Object::Object(h)),
        backing_object: Some(OrdinaryObject(BaseIndex { value: 2 })),
        host_data: 0,
    };
    let mut queues = WorkQueues::new();
    data.mark_values(&mut queues);
    assert_eq!(queues.objects, vec![h, OrdinaryObject(BaseIndex { value: 2 })]);
}

#[test]
fn compaction_list_subtracts_the_freed_slots_before() {
    let list = CompactionList::from_mark_bits(&vec![false, true, true, false, false, true]);
    assert_eq!(list.positions, vec![None, Some(0), Some(1), None, None, Some(2)]);
    let mut index = BaseIndex { value: 6 };
    list.shift_index(&mut index);
    assert_eq!(index, BaseIndex { value: 3 });
    let mut index = BaseIndex { value: 2 };
    list.shift_index(&mut index);
    assert_eq!(index, BaseIndex { value: 1 });
    let all = CompactionList::from_mark_bits(&vec![true, true]);
    assert_eq!(all.positions, vec![Some(0), Some(1)]);
    let none = CompactionList::from_mark_bits(&vec![]);
    assert!(none.positions.is_empty());
}

#[test]
fn sweep_values_renumbers_by_kind() {
    let compactions = CompactionLists {
        objects: CompactionList::from_mark_bits(&vec![false, true]),
        embedder_objects: CompactionList::from_mark_bits(&vec![false, false, true]),
    };
    let mut value = Value::Object(OrdinaryObject(BaseIndex { value: 2 }));
    value.sweep_values(&compactions);
    assert_eq!(value, Value::Object(OrdinaryObject(BaseIndex { value: 1 })));
    let mut value = Value::EmbedderObject(EmbedderObject(BaseIndex { value: 3 }));
    value.sweep_values(&compactions);
    assert_eq!(value, Value::EmbedderObject(EmbedderObject(BaseIndex { value: 1 })));
    let mut value = Value::Integer(2);
    value.sweep_values(&compactions);
    assert_eq!(value, Value::Integer(2));
    let mut o = Object::EmbedderObject(EmbedderObject(BaseIndex { value: 3 }));
    o.sweep_values(&compactions);
    assert_eq!(o, Object::EmbedderObject(EmbedderObject(BaseIndex { value: 1 })));
    let mut roots = vec![Object::Object(OrdinaryObject(BaseIndex { value: 2 })), o];
    sweep_roots(&mut roots, &compactions);
    assert_eq!(roots[0], Object::Object(OrdinaryObject(BaseIndex { value: 1 })));
}

#[test]
fn sweep_heap_vector_keeps_marked_slots_in_order() {
    let mut slots = vec![Some(1), Some(2), None, Some(4), Some(5)];
    sweep_heap_vector(&mut slots, &vec![true, false, false, true, true]);
    assert_eq!(slots, vec![Some(1), Some(4), Some(5)]);
    let mut slots = vec![Some(1), Some(2)];
    sweep_heap_vector(&mut slots, &vec![false, false]);
    assert!(slots.is_empty());
    let mut slots = vec![Some(1), Some(2)];
    assert_eq!(take_slot(&mut slots, 1), Some(2));
    assert_eq!(slots, vec![Some(1), None]);
}

#[test]
fn collection_is_due_at_the_threshold() {
    let mut heap = Heap::new(2);
    let a = heap.allocate_embedder_object(embedder(1));
    assert!(!heap.should_collect());
    let mut roots = vec![Object::EmbedderObject(a)];
    assert!(heap.collect_if_due(&mut roots).is_none());
    assert_eq!(heap.embedder_objects.len(), 1);
    let _b = heap.allocate_embedder_object(embedder(2));
    assert_eq!(heap.allocations, 2);
    assert!(heap.should_collect());
    let lists = heap.collect_if_due(&mut roots).unwrap();
    assert_eq!(lists.embedder_objects.positions, vec![Some(0), None]);
    assert_eq!(heap.embedder_objects.len(), 1);
    assert_eq!(heap.allocations, 0);
    assert_eq!(heap.threshold, 2);
    assert!(!heap.should_collect());
}

#[test]
fn agent_collects_now() {
    let mut agent = Agent::new(10);
    let _garbage = agent.heap.allocate_embedder_object(embedder(1));
    let kept = agent.heap.allocate_embedder_object(embedder(2));
    let mut roots = vec![Object::EmbedderObject(kept)];
    agent.gc(&mut roots);
    assert_eq!(roots, vec![Object::EmbedderObject(EmbedderObject(BaseIndex { value: 1 }))]);
    assert_eq!(agent.index(EmbedderObject(BaseIndex { value: 1 })).host_data, 2);
    agent.index_mut(EmbedderObject(BaseIndex { value: 1 })).host_data = 3;
    assert_eq!(agent.index(EmbedderObject(BaseIndex { value: 1 })).host_data, 3);
}
