use vstd::prelude::*;

use crate::geometry::Vec3;
use crate::text::str_equal;

verus! {

/// A parsed JSON document. Numbers are fixed-point, in thousandths.
#[derive(Debug)]
pub enum JsonValue {
    Null,
    Bool(bool),
    Number(i32),
    Str(String),
    Array(Vec<JsonValue>),
    Object(Vec<(String, JsonValue)>),
}

/// `i` is the first entry with key `key`.
pub open spec fn first_with_key(entries: Seq<(String, JsonValue)>, key: Seq<char>, i: int) -> bool {
    &&& 0 <= i < entries.len()
    &&& entries[i].0@ == key
    &&& forall|j: int| 0 <= j < i ==> entries[j].0@ != key
}

/// The value of the first entry with key `key`.
pub open spec fn entries_get(entries: Seq<(String, JsonValue)>, key: Seq<char>) -> Option<JsonValue> {
    if exists|i: int| first_with_key(entries, key, i) {
        Some(entries[choose|i: int| first_with_key(entries, key, i)].1)
    } else {
        None
    }
}

/// The member `key` of an object; nothing for any other value.
pub open spec fn json_get(v: JsonValue, key: Seq<char>) -> Option<JsonValue> {
    match v {
        JsonValue::Object(entries) => entries_get(entries@, key),
        _ => None,
    }
}

/// A JSON array of exactly three numbers, read as a vector.
pub open spec fn json_vector(v: Option<JsonValue>) -> Option<Vec3> {
    match v {
        Some(JsonValue::Array(items)) => if items@.len() == 3 && items@[0] is Number
            && items@[1] is Number && items@[2] is Number {
            Some(
                Vec3 {
                    x: items@[0]->Number_0,
                    y: items@[1]->Number_0,
                    z: items@[2]->Number_0,
                },
            )
        } else {
            None
        },
        _ => None,
    }
}

impl JsonValue {
    /// The member `key` of an object (the first, should keys repeat).
    pub fn get(&self, key: &str) -> (r: Option<&JsonValue>)
        ensures
            match r {
                Some(v) => json_get(*self, key@) == Some(*v),
                None => json_get(*self, key@) is None,
            },
    {
        match self {
            JsonValue::Object(entries) => {
                let mut i: usize = 0;
                while i < entries.len()
                    invariant
                        *self == JsonValue::Object(*entries),
                        i <= entries@.len(),
                        forall|j: int| 0 <= j < i ==> entries@[j].0@ != key@,
                    decreases entries@.len() - i,
                {
                    if str_equal(entries[i].0.as_str(), key) {
                        proof {
                            assert(first_with_key(entries@, key@, i as int));
                            let k = choose|k: int| first_with_key(entries@, key@, k);
                            assert(k == i);
                            assert(entries_get(entries@, key@) == Some(entries@[i as int].1));
                        }
                        let found = &entries[i];
                        assert(found.1 == entries@[i as int].1);
                        return Some(&found.1);
                    }
                    i = i + 1;
                }
                None
            },
            _ => None,
        }
    }

    pub fn as_str(&self) -> (r: Option<&str>)
        ensures
            match *self {
                JsonValue::Str(s) => r is Some && r->Some_0@ == s@,
                _ => r is None,
            },
    {
        match self {
            JsonValue::Str(s) => Some(s.as_str()),
            _ => None,
        }
    }
}

/// Reads an optional value as a vector of three numbers.
pub fn as_vector(v: Option<&JsonValue>) -> (r: Option<Vec3>)
    ensures
        r == json_vector(
            match v {
                Some(x) => Some(*x),
                None => None,
            },
        ),
{
    match v {
        Some(JsonValue::Array(items)) => {
            if items.len() == 3 {
                match (&items[0], &items[1], &items[2]) {
                    (JsonValue::Number(x), JsonValue::Number(y), JsonValue::Number(z)) => {
                        Some(Vec3 { x: *x, y: *y, z: *z })
                    },
                    _ => None,
                }
            } else {
                None
            }
        },
        _ => None,
    }
}

/// Entry `i` is the first with its key; a later entry with the same key is
/// overridden by it, as `json_get` reads objects.
pub open spec fn first_of_key(entries: Seq<(String, JsonValue)>, i: int) -> bool {
    forall|j: int| 0 <= j < i ==> entries[j].0@ != entries[i].0@
}

/// Whether entry `i` of an object is the first with its key.
pub fn is_first_of_key(entries: &Vec<(String, JsonValue)>, i: usize) -> (r: bool)
    requires
        i < entries@.len(),
    ensures
        r == first_of_key(entries@, i as int),
{
    let mut j: usize = 0;
    while j < i
        invariant
            i < entries@.len(),
            j <= i,
            forall|k: int| 0 <= k < j ==> entries@[k].0@ != entries@[i as int].0@,
        decreases i - j,
    {
        if str_equal(entries[j].0.as_str(), entries[i].0.as_str()) {
            return false;
        }
        j = j + 1;
    }
    true
}

} // verus!
