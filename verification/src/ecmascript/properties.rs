//! The properties of one object: lookup, definition, deletion and the
//! order of the names.

use vstd::prelude::*;
use crate::ecmascript::ordinary::{property_refs, ObjectData, ObjectHeapData, PropertyEntry};
use crate::ecmascript::types::{JsError, JsResult, Object, PropertyDescriptor, PropertyKey, Value};
use crate::heap::sweep::{lemma_property_refs_contains, lemma_property_refs_origin};

verus! {

/// The place of the first property named `key`, if there is one.
pub open spec fn find_key(properties: Seq<PropertyEntry>, key: PropertyKey) -> Option<int>
    decreases properties.len(),
{
    if properties.len() == 0 {
        None
    } else {
        match find_key(properties.drop_last(), key) {
            Some(i) => Some(i),
            None => if properties.last().key == key {
                Some(properties.len() - 1)
            } else {
                None
            },
        }
    }
}

/// What `find_key` finds is the first property of that name, and where it
/// finds nothing there is none.
pub proof fn lemma_find_key(properties: Seq<PropertyEntry>, key: PropertyKey)
    ensures
        match find_key(properties, key) {
            Some(i) => 0 <= i < properties.len() && properties[i].key == key && forall|j: int|
                0 <= j < i ==> properties[j].key != key,
            None => forall|j: int| 0 <= j < properties.len() ==> properties[j].key != key,
        },
    decreases properties.len(),
{
    if properties.len() > 0 {
        let front = properties.drop_last();
        lemma_find_key(front, key);
        match find_key(front, key) {
            Some(i) => {
                assert(front[i] == properties[i]);
                assert forall|j: int| 0 <= j < i implies properties[j].key != key by {
                    assert(front[j] == properties[j]);
                }
            },
            None => {
                assert forall|j: int| 0 <= j < front.len() implies properties[j].key != key by {
                    assert(front[j] == properties[j]);
                }
            },
        }
    }
}

/// The property as a descriptor with every field present.
pub open spec fn descriptor_of(entry: PropertyEntry) -> PropertyDescriptor {
    PropertyDescriptor {
        value: Some(entry.value),
        writable: Some(entry.writable),
        enumerable: Some(entry.enumerable),
        configurable: Some(entry.configurable),
    }
}

/// The property that a descriptor defines where there was none: an absent
/// value is undefined, an absent attribute is off.
pub open spec fn entry_of(key: PropertyKey, desc: PropertyDescriptor) -> PropertyEntry {
    PropertyEntry {
        key,
        value: match desc.value {
            Some(v) => v,
            None => Value::Undefined,
        },
        writable: desc.writable == Some(true),
        enumerable: desc.enumerable == Some(true),
        configurable: desc.configurable == Some(true),
    }
}

/// The property after a descriptor was applied to it: each field that is
/// present replaces the property's.
pub open spec fn merged(current: PropertyEntry, desc: PropertyDescriptor) -> PropertyEntry {
    PropertyEntry {
        key: current.key,
        value: match desc.value {
            Some(v) => v,
            None => current.value,
        },
        writable: match desc.writable {
            Some(w) => w,
            None => current.writable,
        },
        enumerable: match desc.enumerable {
            Some(e) => e,
            None => current.enumerable,
        },
        configurable: match desc.configurable {
            Some(c) => c,
            None => current.configurable,
        },
    }
}

/// Why a descriptor may not be applied to a property, if it may not. A
/// property that is not configurable keeps its attributes, but may still go
/// from writable to not writable; one that is neither configurable nor
/// writable keeps its value too.
pub open spec fn refusal(current: PropertyEntry, desc: PropertyDescriptor) -> Option<JsError> {
    if current.configurable {
        None
    } else if desc.configurable == Some(true) || (desc.enumerable is Some && desc.enumerable
        != Some(current.enumerable)) {
        Some(JsError::NotConfigurable)
    } else if !current.writable && (desc.writable == Some(true) || (desc.value is Some
        && desc.value != Some(current.value))) {
        Some(JsError::NotWritable)
    } else {
        None
    }
}

/// The properties after a property was defined or changed. A new property
/// goes to the end, and only where the object is extensible; a property
/// that is there is changed in its place, where its attributes allow it.
pub open spec fn define_in(
    properties: Seq<PropertyEntry>,
    extensible: bool,
    key: PropertyKey,
    desc: PropertyDescriptor,
) -> Result<Seq<PropertyEntry>, JsError> {
    match find_key(properties, key) {
        None => if extensible {
            Ok(properties.push(entry_of(key, desc)))
        } else {
            Err(JsError::NotExtensible)
        },
        Some(i) => match refusal(properties[i], desc) {
            Some(e) => Err(e),
            None => Ok(properties.update(i, merged(properties[i], desc))),
        },
    }
}

/// The properties after the property named `key` was deleted, or nothing
/// where it is there and not configurable. To delete what is not there
/// changes nothing.
pub open spec fn delete_in(properties: Seq<PropertyEntry>, key: PropertyKey) -> Option<
    Seq<PropertyEntry>,
> {
    match find_key(properties, key) {
        None => Some(properties),
        Some(i) => if properties[i].configurable {
            Some(properties.remove(i))
        } else {
            None
        },
    }
}

/// The ascending run of numbers with one more number put in its place:
/// behind every number that is smaller, before the others.
pub open spec fn insert_ascending(numbers: Seq<u32>, n: u32) -> Seq<u32>
    decreases numbers.len(),
{
    if numbers.len() == 0 || numbers.last() < n {
        numbers.push(n)
    } else {
        insert_ascending(numbers.drop_last(), n).push(numbers.last())
    }
}

/// The integer names of the properties, in ascending order.
pub open spec fn ascending_integers(properties: Seq<PropertyEntry>) -> Seq<u32>
    decreases properties.len(),
{
    if properties.len() == 0 {
        Seq::empty()
    } else {
        match properties.last().key {
            PropertyKey::Integer(n) => insert_ascending(
                ascending_integers(properties.drop_last()),
                n,
            ),
            PropertyKey::Symbol(_) => ascending_integers(properties.drop_last()),
        }
    }
}

/// The symbol names of the properties, in the order of the properties.
pub open spec fn symbol_keys(properties: Seq<PropertyEntry>) -> Seq<PropertyKey>
    decreases properties.len(),
{
    if properties.len() == 0 {
        Seq::empty()
    } else {
        match properties.last().key {
            PropertyKey::Integer(_) => symbol_keys(properties.drop_last()),
            PropertyKey::Symbol(_) => symbol_keys(properties.drop_last()).push(
                properties.last().key,
            ),
        }
    }
}

/// The names of the properties in the order in which a script sees them:
/// the integer names in ascending order, then the symbols in the order in
/// which their properties were added.
pub open spec fn keys_of(properties: Seq<PropertyEntry>) -> Seq<PropertyKey> {
    ascending_integers(properties).map_values(|n: u32| PropertyKey::Integer(n)) + symbol_keys(
        properties,
    )
}

/// No number stands before a smaller one.
pub open spec fn ascending(numbers: Seq<u32>) -> bool {
    forall|i: int, j: int| 0 <= i < j < numbers.len() ==> numbers[i] <= numbers[j]
}

/// Where to put `n` into an ascending run: `place` is behind every number
/// that is smaller and before the others.
pub proof fn lemma_insert_ascending(numbers: Seq<u32>, n: u32, place: int)
    requires
        0 <= place <= numbers.len(),
        forall|j: int| 0 <= j < place ==> numbers[j] < n,
        forall|j: int| place <= j < numbers.len() ==> numbers[j] >= n,
    ensures
        insert_ascending(numbers, n) == numbers.insert(place, n),
    decreases numbers.len(),
{
    if numbers.len() == 0 || numbers.last() < n {
        assert(place == numbers.len());
        assert(numbers.push(n) =~= numbers.insert(place, n));
    } else {
        lemma_insert_ascending(numbers.drop_last(), n, place);
        assert(numbers.drop_last().insert(place, n).push(numbers.last()) =~= numbers.insert(
            place,
            n,
        ));
    }
}

/// To put a number into an ascending run leaves it ascending, with the
/// number in it and nothing else new.
pub proof fn lemma_insert_ascending_keeps(numbers: Seq<u32>, n: u32)
    requires
        ascending(numbers),
    ensures
        ascending(insert_ascending(numbers, n)),
        insert_ascending(numbers, n).len() == numbers.len() + 1,
        forall|x: u32| #[trigger]
            insert_ascending(numbers, n).contains(x) <==> numbers.contains(x) || x == n,
    decreases numbers.len(),
{
    let after = insert_ascending(numbers, n);
    if numbers.len() == 0 || numbers.last() < n {
        assert(after[numbers.len() as int] == n);
        assert forall|x: u32| after.contains(x) <==> numbers.contains(x) || x == n by {
            if numbers.contains(x) {
                let i = choose|i: int| 0 <= i < numbers.len() && numbers[i] == x;
                assert(after[i] == x);
            }
        }
    } else {
        let front = numbers.drop_last();
        let inner = insert_ascending(front, n);
        lemma_insert_ascending_keeps(front, n);
        assert forall|i: int, j: int| 0 <= i < j < after.len() implies after[i] <= after[j] by {
            if j == after.len() - 1 {
                assert(inner.contains(inner[i]));
                if front.contains(inner[i]) {
                    let k = choose|k: int| 0 <= k < front.len() && front[k] == inner[i];
                    assert(numbers[k] <= numbers[numbers.len() - 1]);
                }
            } else {
                assert(inner[i] <= inner[j]);
            }
        }
        assert forall|x: u32| after.contains(x) <==> numbers.contains(x) || x == n by {
            if after.contains(x) {
                let i = choose|i: int| 0 <= i < after.len() && after[i] == x;
                if i < inner.len() {
                    assert(inner.contains(inner[i]));
                    if front.contains(x) {
                        let k = choose|k: int| 0 <= k < front.len() && front[k] == x;
                        assert(numbers[k] == x);
                    }
                } else {
                    assert(numbers[numbers.len() - 1] == x);
                }
            }
            if numbers.contains(x) {
                let k = choose|k: int| 0 <= k < numbers.len() && numbers[k] == x;
                if k < front.len() {
                    assert(front[k] == x);
                    assert(inner.contains(x));
                    let i = choose|i: int| 0 <= i < inner.len() && inner[i] == x;
                    assert(after[i] == x);
                } else {
                    assert(after[after.len() - 1] == x);
                }
            }
            if x == n {
                assert(inner.contains(n));
                let i = choose|i: int| 0 <= i < inner.len() && inner[i] == n;
                assert(after[i] == n);
            }
        }
    }
}

/// Some property is named by the integer `n`.
pub open spec fn has_integer_key(properties: Seq<PropertyEntry>, n: u32) -> bool {
    exists|i: int| 0 <= i < properties.len() && properties[i].key == PropertyKey::Integer(n)
}

/// The integer names come out in ascending order, each name of a property
/// and no other.
pub proof fn lemma_ascending_integers(properties: Seq<PropertyEntry>)
    ensures
        ascending(ascending_integers(properties)),
        forall|n: u32| #[trigger]
            ascending_integers(properties).contains(n) <==> has_integer_key(properties, n),
    decreases properties.len(),
{
    let keys = ascending_integers(properties);
    if properties.len() > 0 {
        let front = properties.drop_last();
        lemma_ascending_integers(front);
        let inner = ascending_integers(front);
        if let PropertyKey::Integer(last) = properties.last().key {
            lemma_insert_ascending_keeps(inner, last);
        }
        assert forall|n: u32| #[trigger] keys.contains(n) <==> has_integer_key(
            properties,
            n,
        ) by {
            if inner.contains(n) {
                assert(has_integer_key(front, n));
                let i = choose|i: int|
                    0 <= i < front.len() && front[i].key == PropertyKey::Integer(n);
                assert(properties[i].key == PropertyKey::Integer(n));
            }
            if properties.last().key == PropertyKey::Integer(n) {
                assert(properties[properties.len() - 1].key == PropertyKey::Integer(n));
            }
            if has_integer_key(properties, n) {
                let i = choose|i: int|
                    0 <= i < properties.len() && properties[i].key == PropertyKey::Integer(n);
                if i < front.len() {
                    assert(front[i].key == PropertyKey::Integer(n));
                    assert(has_integer_key(front, n));
                    assert(inner.contains(n));
                }
            }
        }
    } else {
        assert forall|n: u32| !#[trigger] keys.contains(n) by {}
    }
}

/// No name occurs twice.
pub open spec fn distinct_keys(properties: Seq<PropertyEntry>) -> bool {
    forall|i: int, j: int|
        0 <= i < j < properties.len() ==> properties[i].key != properties[j].key
}

/// To define a property leaves no name twice, and brings in no handle but
/// that of the descriptor's value.
pub proof fn lemma_define_in(
    properties: Seq<PropertyEntry>,
    extensible: bool,
    key: PropertyKey,
    desc: PropertyDescriptor,
)
    requires
        distinct_keys(properties),
        define_in(properties, extensible, key, desc) is Ok,
    ensures
        distinct_keys(define_in(properties, extensible, key, desc)->Ok_0),
        forall|o: Object|
            property_refs(define_in(properties, extensible, key, desc)->Ok_0).contains(o)
                ==> property_refs(properties).contains(o) || (desc.value is Some
                && desc.value->0.as_object() == Some(o)),
{
    let after = define_in(properties, extensible, key, desc)->Ok_0;
    lemma_find_key(properties, key);
    assert forall|o: Object| property_refs(after).contains(o) implies property_refs(
        properties,
    ).contains(o) || (desc.value is Some && desc.value->0.as_object() == Some(o)) by {
        let k = lemma_property_refs_origin(after, o);
        let changed = match find_key(properties, key) {
            None => properties.len() as int,
            Some(i) => i,
        };
        if k != changed {
            assert(after[k] == properties[k]);
            assert(properties[k].value.refs()[0] == o);
            lemma_property_refs_contains(properties, k, o);
        } else if desc.value is None && k < properties.len() {
            assert(after[k].value == properties[k].value);
            assert(properties[k].value.refs()[0] == o);
            lemma_property_refs_contains(properties, k, o);
        }
    }
}

/// To delete a property leaves no name twice, and brings in no handle.
pub proof fn lemma_delete_in(properties: Seq<PropertyEntry>, key: PropertyKey)
    requires
        distinct_keys(properties),
        delete_in(properties, key) is Some,
    ensures
        distinct_keys(delete_in(properties, key)->0),
        forall|o: Object|
            property_refs(delete_in(properties, key)->0).contains(o) ==> property_refs(
                properties,
            ).contains(o),
{
    let after = delete_in(properties, key)->0;
    lemma_find_key(properties, key);
    assert forall|o: Object| property_refs(after).contains(o) implies property_refs(
        properties,
    ).contains(o) by {
        let k = lemma_property_refs_origin(after, o);
        match find_key(properties, key) {
            None => {
                assert(properties[k].value.refs()[0] == o);
                lemma_property_refs_contains(properties, k, o);
            },
            Some(i) => {
                let from = if k < i {
                    k
                } else {
                    k + 1
                };
                assert(after[k] == properties[from]);
                assert(properties[from].value.refs()[0] == o);
                lemma_property_refs_contains(properties, from, o);
            },
        }
    }
}

impl ObjectHeapData {
    /// An object without properties.
    pub fn new(prototype: Option<Object>) -> (data: ObjectHeapData)
        ensures
            data@ == (ObjectData { extensible: true, prototype, properties: Seq::empty() }),
            data@.wf(),
    {
        ObjectHeapData { extensible: true, prototype, properties: Vec::new() }
    }

    /// The place of the property named `key`, if there is one.
    pub fn find(&self, key: PropertyKey) -> (place: Option<usize>)
        ensures
            match place {
                Some(i) => find_key(self@.properties, key) == Some(i as int),
                None => find_key(self@.properties, key) is None,
            },
    {
        let mut i: usize = 0;
        while i < self.properties.len()
            invariant
                i <= self.properties@.len(),
                forall|j: int| 0 <= j < i ==> self.properties@[j].key != key,
            decreases self.properties@.len() - i,
        {
            if self.properties[i].key == key {
                proof {
                    lemma_find_key(self@.properties, key);
                }
                return Some(i);
            }
            i = i + 1;
        }
        proof {
            lemma_find_key(self@.properties, key);
        }
        None
    }

    /// The property named `key`, if there is one.
    pub fn get(&self, key: PropertyKey) -> (entry: Option<PropertyEntry>)
        ensures
            entry == match find_key(self@.properties, key) {
                Some(i) => Some(self@.properties[i]),
                None => None,
            },
    {
        proof {
            lemma_find_key(self@.properties, key);
        }
        match self.find(key) {
            Some(i) => Some(self.properties[i]),
            None => None,
        }
    }

    /// Defines the property named `key`, or changes it, as the descriptor
    /// asks. `extensible` says whether a new property may be added. Where
    /// the request is refused nothing changes.
    pub fn define(
        &mut self,
        extensible: bool,
        key: PropertyKey,
        desc: PropertyDescriptor,
    ) -> (r: JsResult<bool>)
        ensures
            final(self).extensible == old(self).extensible,
            final(self).prototype == old(self).prototype,
            match define_in(old(self)@.properties, extensible, key, desc) {
                Ok(properties) => r == Ok::<bool, JsError>(true) && final(self)@.properties
                    == properties,
                Err(e) => r == Err::<bool, JsError>(e) && final(self)@.properties == old(
                    self,
                )@.properties,
            },
    {
        proof {
            lemma_find_key(self@.properties, key);
        }
        match self.find(key) {
            None => {
                if !extensible {
                    return Err(JsError::NotExtensible);
                }
                let entry = PropertyEntry {
                    key,
                    value: match desc.value {
                        Some(v) => v,
                        None => Value::Undefined,
                    },
                    writable: match desc.writable {
                        Some(w) => w,
                        None => false,
                    },
                    enumerable: match desc.enumerable {
                        Some(e) => e,
                        None => false,
                    },
                    configurable: match desc.configurable {
                        Some(c) => c,
                        None => false,
                    },
                };
                self.properties.push(entry);
                Ok(true)
            },
            Some(i) => {
                let current = self.properties[i];
                if !current.configurable {
                    let configurable_asked = match desc.configurable {
                        Some(c) => c,
                        None => false,
                    };
                    let enumerable_changes = match desc.enumerable {
                        Some(e) => e != current.enumerable,
                        None => false,
                    };
                    if configurable_asked || enumerable_changes {
                        return Err(JsError::NotConfigurable);
                    }
                    if !current.writable {
                        let writable_asked = match desc.writable {
                            Some(w) => w,
                            None => false,
                        };
                        let value_changes = match desc.value {
                            Some(v) => v != current.value,
                            None => false,
                        };
                        if writable_asked || value_changes {
                            return Err(JsError::NotWritable);
                        }
                    }
                }
                let entry = PropertyEntry {
                    key: current.key,
                    value: match desc.value {
                        Some(v) => v,
                        None => current.value,
                    },
                    writable: match desc.writable {
                        Some(w) => w,
                        None => current.writable,
                    },
                    enumerable: match desc.enumerable {
                        Some(e) => e,
                        None => current.enumerable,
                    },
                    configurable: match desc.configurable {
                        Some(c) => c,
                        None => current.configurable,
                    },
                };
                self.properties.set(i, entry);
                Ok(true)
            },
        }
    }

    /// Deletes the property named `key` and says whether it is gone: a
    /// property that is not configurable stays.
    pub fn delete(&mut self, key: PropertyKey) -> (gone: bool)
        ensures
            final(self).extensible == old(self).extensible,
            final(self).prototype == old(self).prototype,
            match delete_in(old(self)@.properties, key) {
                Some(properties) => gone && final(self)@.properties == properties,
                None => !gone && final(self)@.properties == old(self)@.properties,
            },
    {
        proof {
            lemma_find_key(self@.properties, key);
        }
        match self.find(key) {
            None => true,
            Some(i) => {
                if self.properties[i].configurable {
                    self.properties.remove(i);
                    true
                } else {
                    false
                }
            },
        }
    }

    /// The names of the properties in the order in which a script sees
    /// them: the integer names in ascending order, then the symbols in the
    /// order in which their properties were added.
    pub fn keys(&self) -> (keys: Vec<PropertyKey>)
        ensures
            keys@ == keys_of(self@.properties),
    {
        let mut integers: Vec<u32> = Vec::new();
        let mut symbols: Vec<PropertyKey> = Vec::new();
        let mut i: usize = 0;
        while i < self.properties.len()
            invariant
                i <= self.properties@.len(),
                integers@ == ascending_integers(self@.properties.take(i as int)),
                symbols@ == symbol_keys(self@.properties.take(i as int)),
            decreases self.properties@.len() - i,
        {
            proof {
                assert(self@.properties.take(i + 1).drop_last() =~= self@.properties.take(
                    i as int,
                ));
                lemma_ascending_integers(self@.properties.take(i as int));
            }
            match self.properties[i].key {
                PropertyKey::Integer(n) => {
                    let mut place: usize = integers.len();
                    while place > 0 && integers[place - 1] >= n
                        invariant
                            place <= integers@.len(),
                            forall|j: int| place <= j < integers@.len() ==> integers@[j] >= n,
                        decreases place,
                    {
                        place = place - 1;
                    }
                    proof {
                        assert forall|j: int| 0 <= j < place implies integers@[j] < n by {
                            assert(integers@[j] <= integers@[place - 1]);
                        }
                        lemma_insert_ascending(integers@, n, place as int);
                    }
                    integers.insert(place, n);
                },
                PropertyKey::Symbol(_) => {
                    symbols.push(self.properties[i].key);
                },
            }
            i = i + 1;
        }
        assert(self@.properties.take(i as int) =~= self@.properties);
        let mut keys: Vec<PropertyKey> = Vec::new();
        let mut k: usize = 0;
        while k < integers.len()
            invariant
                k <= integers@.len(),
                keys@ == integers@.take(k as int).map_values(|n: u32| PropertyKey::Integer(n)),
            decreases integers@.len() - k,
        {
            keys.push(PropertyKey::Integer(integers[k]));
            assert(keys@ =~= integers@.take(k + 1).map_values(|n: u32| PropertyKey::Integer(n)));
            k = k + 1;
        }
        assert(integers@.take(k as int) =~= integers@);
        let ghost front = keys@;
        let mut m: usize = 0;
        while m < symbols.len()
            invariant
                m <= symbols@.len(),
                keys@ == front + symbols@.take(m as int),
            decreases symbols@.len() - m,
        {
            keys.push(symbols[m]);
            assert(keys@ =~= front + symbols@.take(m + 1));
            m = m + 1;
        }
        assert(symbols@.take(m as int) =~= symbols@);
        keys
    }
}

} // verus!
