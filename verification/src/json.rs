//! JSON values as the library sees them.
//!
//! The JSON documents that the generators read and write are values of the
//! `immutable-json` crate. Every operation that the library performs on them
//! goes through one of the functions below, each of which states its effect
//! on `JVal`, the JSON value that a document holds.
use vstd::prelude::*;
use immutable_json::api::Value;
use immutable_json::array::Array;
use immutable_json::object::Object;
use std::str::FromStr;
use crate::text::split_spec;

verus! {

/// A JSON value. Numbers that are not integers are kept as the bit pattern
/// of their IEEE 754 double representation, so that two different numbers
/// never have the same model.
pub enum JVal {
    Null,
    Bool(bool),
    Int(int),
    Decimal(int),
    Str(Seq<char>),
    Arr(Seq<JVal>),
    Obj(Map<Seq<char>, JVal>),
}

/// The fields of a JSON object.
pub type JFields = Map<Seq<char>, JVal>;

#[verifier::external_type_specification]
#[verifier::external_body]
pub struct ExJsonValue(Value);

#[verifier::external_type_specification]
#[verifier::external_body]
pub struct ExJsonObject(Object);

#[verifier::external_type_specification]
#[verifier::external_body]
pub struct ExJsonArray(Array);

#[verifier::external_type_specification]
#[verifier::external_body]
pub struct ExJsonError(immutable_json::error::Error);

#[verifier::external_type_specification]
#[verifier::external_body]
pub struct ExSerdeValue(serde_json::Value);

#[verifier::external_type_specification]
#[verifier::external_body]
pub struct ExYamlError(serde_yaml::Error);

/// The JSON value that an `immutable_json::api::Value` holds.
pub uninterp spec fn value_view(v: Value) -> JVal;

/// The fields that an `immutable_json::object::Object` holds.
pub uninterp spec fn object_fields(o: Object) -> JFields;

/// The elements that an `immutable_json::array::Array` holds, in order.
pub uninterp spec fn array_items(a: Array) -> Seq<JVal>;

/// The JSON value that a `serde_json::Value` holds.
pub uninterp spec fn serde_view(v: serde_json::Value) -> JVal;

/// What `immutable_json::api::Value::from_str` makes of a text: the parsed
/// value, or `None` where the text is not JSON.
pub uninterp spec fn json_text_value(text: Seq<char>) -> Option<JVal>;

/// What `serde_yaml::from_str` makes of a text as a `serde_json::Value`: the
/// parsed value, or `None` where the text is not a YAML document of JSON data.
pub uninterp spec fn yaml_text_value(text: Seq<char>) -> Option<JVal>;

/// The text that `serde_yaml::to_string` writes for a `serde_json::Value`.
pub uninterp spec fn yaml_text(v: JVal) -> Seq<char>;

/// `s` with every occurrence of a nonempty `pat`, found from the left without
/// overlap, replaced by `to`, as `str::replace` does.
pub open spec fn replace_all(s: Seq<char>, pat: Seq<char>, to: Seq<char>) -> Seq<char>
    decreases s.len(),
{
    if s.len() == 0 {
        s
    } else if pat.len() > 0 && s.len() >= pat.len() && s.take(pat.len() as int) == pat {
        to + replace_all(s.skip(pat.len() as int), pat, to)
    } else {
        seq![s[0]] + replace_all(s.skip(1), pat, to)
    }
}

/// A segment of a JSON pointer with its escapes `~1` and `~0` undone, in
/// that order.
pub open spec fn unescape(segment: Seq<char>) -> Seq<char> {
    replace_all(replace_all(segment, "~1"@, "/"@), "~0"@, "~"@)
}

/// The pieces that are not empty, in order.
pub open spec fn nonempty_pieces(pieces: Seq<Seq<char>>) -> Seq<Seq<char>>
    decreases pieces.len(),
{
    if pieces.len() == 0 {
        Seq::empty()
    } else if pieces.last().len() == 0 {
        nonempty_pieces(pieces.drop_last())
    } else {
        nonempty_pieces(pieces.drop_last()).push(pieces.last())
    }
}

/// The segments of a JSON pointer: the pieces between its slashes that are
/// not empty, unescaped.
pub open spec fn pointer_segments(pointer: Seq<char>) -> Seq<Seq<char>> {
    let pieces = nonempty_pieces(split_spec(pointer, '/'));
    Seq::new(pieces.len(), |i: int| unescape(pieces[i]))
}

pub open spec fn is_digit(c: char) -> bool {
    48 <= (c as int) <= 57
}

/// The number that decimal digits write.
pub open spec fn digits_value(s: Seq<char>) -> nat
    decreases s.len(),
{
    if s.len() == 0 {
        0
    } else {
        digits_value(s.drop_last()) * 10 + ((s.last() as int) - 48) as nat
    }
}

/// The number that a nonempty run of digits writes, where it fits a `usize`.
pub open spec fn digits_index(d: Seq<char>) -> Option<nat> {
    if d.len() > 0 && (forall|i: int| 0 <= i < d.len() ==> is_digit(#[trigger] d[i])) && digits_value(d) <= usize::MAX {
        Some(digits_value(d))
    } else {
        None
    }
}

/// What `usize::from_str` makes of a segment: an optional `+` followed by
/// digits only, of a value that fits.
pub open spec fn segment_index(s: Seq<char>) -> Option<nat> {
    if s.len() > 0 && s[0] == '+' {
        digits_index(s.skip(1))
    } else {
        digits_index(s)
    }
}

/// The value that a path of segments leads to: objects are entered by key,
/// arrays by index.
pub open spec fn lookup(v: JVal, segments: Seq<Seq<char>>) -> Option<JVal>
    decreases segments.len(),
{
    if segments.len() == 0 {
        Some(v)
    } else {
        match v {
            JVal::Obj(m) => if m.contains_key(segments[0]) {
                lookup(m[segments[0]], segments.skip(1))
            } else {
                None
            },
            JVal::Arr(a) => match segment_index(segments[0]) {
                Some(i) => if i < a.len() {
                    lookup(a[i as int], segments.skip(1))
                } else {
                    None
                },
                None => None,
            },
            _ => None,
        }
    }
}

/// What `Object::get_p` finds in an object through a JSON pointer: nothing
/// where the pointer does not start with a slash.
pub open spec fn pointer_target(fields: JFields, pointer: Seq<char>) -> Option<JVal> {
    if pointer.len() > 0 && pointer[0] == '/' {
        lookup(JVal::Obj(fields), pointer_segments(pointer))
    } else {
        None
    }
}

pub open spec fn no_fields() -> JFields {
    Map::empty()
}

pub open spec fn no_items() -> Seq<JVal> {
    Seq::empty()
}

/// The value of a field of an object that is a string.
pub open spec fn field_str(m: JFields, key: Seq<char>) -> Option<Seq<char>> {
    if m.contains_key(key) {
        match m[key] {
            JVal::Str(s) => Some(s),
            _ => None,
        }
    } else {
        None
    }
}

/// The value of a field of an object that is an object.
pub open spec fn field_obj(m: JFields, key: Seq<char>) -> Option<JFields> {
    if m.contains_key(key) {
        match m[key] {
            JVal::Obj(o) => Some(o),
            _ => None,
        }
    } else {
        None
    }
}

/// The value of a field of an object that is an array.
pub open spec fn field_arr(m: JFields, key: Seq<char>) -> Option<Seq<JVal>> {
    if m.contains_key(key) {
        match m[key] {
            JVal::Arr(a) => Some(a),
            _ => None,
        }
    } else {
        None
    }
}

/// The value of a field of an object that is a Boolean.
pub open spec fn field_bool(m: JFields, key: Seq<char>) -> Option<bool> {
    if m.contains_key(key) {
        match m[key] {
            JVal::Bool(b) => Some(b),
            _ => None,
        }
    } else {
        None
    }
}

/// The value of a field of an object that is an integer.
pub open spec fn field_int(m: JFields, key: Seq<char>) -> Option<int> {
    if m.contains_key(key) {
        match m[key] {
            JVal::Int(i) => Some(i),
            _ => None,
        }
    } else {
        None
    }
}

/// What a pointer lookup gives when only a string is wanted.
pub open spec fn pointer_str(m: JFields, pointer: Seq<char>) -> Option<Seq<char>> {
    match pointer_target(m, pointer) {
        Some(JVal::Str(s)) => Some(s),
        _ => None,
    }
}

/// What a pointer lookup gives when only an object is wanted.
pub open spec fn pointer_obj(m: JFields, pointer: Seq<char>) -> Option<JFields> {
    match pointer_target(m, pointer) {
        Some(JVal::Obj(o)) => Some(o),
        _ => None,
    }
}

/// `s` lists the entries of `m`, each key once, in some order.
pub open spec fn is_listing<V>(m: Map<Seq<char>, V>, s: Seq<(Seq<char>, V)>) -> bool {
    &&& forall|i: int| 0 <= i < s.len() ==> #[trigger] m.contains_key(s[i].0) && m[s[i].0] == s[i].1
    &&& forall|i: int, j: int| 0 <= i < j < s.len() ==> #[trigger] s[i].0 != #[trigger] s[j].0
    &&& forall|k: Seq<char>| #[trigger] m.contains_key(k) ==> exists|i: int| 0 <= i < s.len() && s[i].0 == k
}

/// An entry of a listing is an entry of the map.
pub proof fn lemma_listing_entry<V>(m: Map<Seq<char>, V>, s: Seq<(Seq<char>, V)>, i: int)
    requires
        is_listing(m, s),
        0 <= i < s.len(),
    ensures
        m.contains_key(s[i].0) && m[s[i].0] == s[i].1,
{
}

/// A map has as many keys as a listing of it has entries.
pub proof fn lemma_listing_len<V>(m: Map<Seq<char>, V>, s: Seq<(Seq<char>, V)>)
    requires
        is_listing(m, s),
    ensures
        m.dom().finite(),
        m.dom().len() == s.len(),
{
    let keys = s.map_values(|p: (Seq<char>, V)| p.0);
    assert forall|i: int, j: int| 0 <= i < keys.len() && 0 <= j < keys.len() && i != j implies keys[i] != keys[j] by {
        if i < j {
            assert(s[i].0 != s[j].0);
        } else {
            assert(s[j].0 != s[i].0);
        }
    }
    assert(keys.no_duplicates());
    keys.unique_seq_to_set();
    vstd::seq_lib::seq_to_set_is_finite(keys);
    assert forall|k: Seq<char>| #[trigger] m.dom().contains(k) <==> keys.to_set().contains(k) by {
        if m.contains_key(k) {
            let i = choose|i: int| 0 <= i < s.len() && s[i].0 == k;
            assert(keys[i] == k);
        }
        if keys.to_set().contains(k) {
            let i = choose|i: int| 0 <= i < keys.len() && keys[i] == k;
            assert(m.contains_key(s[i].0));
        }
    }
    assert(m.dom() =~= keys.to_set());
}

/// Every finite map has a listing.
pub proof fn lemma_listing_exists<V>(m: Map<Seq<char>, V>)
    requires
        m.dom().finite(),
    ensures
        exists|s: Seq<(Seq<char>, V)>| is_listing(m, s),
    decreases m.dom().len(),
{
    if m.dom().len() == 0 {
        let s = Seq::<(Seq<char>, V)>::empty();
        assert forall|k: Seq<char>| #[trigger] m.contains_key(k) implies exists|i: int| 0 <= i < s.len() && s[i].0 == k by {
            assert(m.dom().contains(k));
        }
        assert(is_listing(m, s));
    } else {
        let k = m.dom().choose();
        let rest = m.remove(k);
        assert(rest.dom() =~= m.dom().remove(k));
        lemma_listing_exists(rest);
        let s = choose|s: Seq<(Seq<char>, V)>| is_listing(rest, s);
        let t = s.push((k, m[k]));
        assert forall|i: int| 0 <= i < t.len() implies #[trigger] m.contains_key(t[i].0) && m[t[i].0] == t[i].1 by {
            if i < s.len() {
                assert(t[i] == s[i]);
                assert(rest.contains_key(s[i].0));
            }
        }
        assert forall|i: int, j: int| 0 <= i < j < t.len() implies #[trigger] t[i].0 != #[trigger] t[j].0 by {
            if j < s.len() {
                assert(t[i] == s[i] && t[j] == s[j]);
            } else {
                assert(t[i] == s[i]);
                assert(rest.contains_key(s[i].0));
            }
        }
        assert forall|key: Seq<char>| #[trigger] m.contains_key(key) implies exists|i: int| 0 <= i < t.len() && t[i].0 == key by {
            if key == k {
                assert(t[s.len() as int].0 == key);
            } else {
                assert(rest.contains_key(key));
                let i = choose|i: int| 0 <= i < s.len() && s[i].0 == key;
                assert(t[i] == s[i]);
            }
        }
        assert(is_listing(m, t));
    }
}

/// A value that is no number, or a number that `serde_json` can hold: an
/// integer of at most 64 bits, or a finite double.
pub open spec fn number_convertible(v: JVal) -> bool {
    match v {
        JVal::Int(i) => -0x8000_0000_0000_0000 <= i <= 0xffff_ffff_ffff_ffff,
        JVal::Decimal(bits) => (bits / 0x10_0000_0000_0000) % 0x800 != 0x7ff,
        _ => true,
    }
}

/// A value all of whose numbers `serde_json` can hold.
pub open spec fn serializable(v: JVal) -> bool
    decreases v,
{
    match v {
        JVal::Int(_) => number_convertible(v),
        JVal::Decimal(_) => number_convertible(v),
        JVal::Arr(items) => forall|i: int| 0 <= i < items.len() ==> serializable(#[trigger] items[i]),
        JVal::Obj(fields) => forall|k: Seq<char>| #[trigger] fields.contains_key(k) ==> serializable(fields[k]),
        _ => true,
    }
}

/// The models of a list of field entries.
pub open spec fn entry_views(s: Seq<(String, Value)>) -> Seq<(Seq<char>, JVal)> {
    Seq::new(s.len(), |i: int| (s[i].0@, value_view(s[i].1)))
}

/// The models of a list of values.
pub open spec fn value_views(s: Seq<Value>) -> Seq<JVal> {
    Seq::new(s.len(), |i: int| value_view(s[i]))
}

/// `Object::new`: an object without fields.
#[verifier::external_body]
pub(crate) fn object_new() -> (res: Object)
    ensures
        object_fields(res) == no_fields(),
{
    Object::new()
}

/// `Object::clone`: the same fields.
#[verifier::external_body]
pub(crate) fn object_clone(o: &Object) -> (res: Object)
    ensures
        object_fields(res) == object_fields(*o),
{
    o.clone()
}

/// `Object::add_string`: the object with the field `key` set to the string.
#[verifier::external_body]
pub(crate) fn add_string(o: &Object, key: &str, value: &str) -> (res: Object)
    ensures
        object_fields(res) == object_fields(*o).insert(key@, JVal::Str(value@)),
{
    o.add_string(key, value)
}

/// `Object::add_object`: the object with the field `key` set to the object.
#[verifier::external_body]
pub(crate) fn add_object(o: &Object, key: &str, value: &Object) -> (res: Object)
    ensures
        object_fields(res) == object_fields(*o).insert(key@, JVal::Obj(object_fields(*value))),
{
    o.add_object(key, value)
}

/// `Object::add_array`: the object with the field `key` set to the array.
#[verifier::external_body]
pub(crate) fn add_array(o: &Object, key: &str, value: &Array) -> (res: Object)
    ensures
        object_fields(res) == object_fields(*o).insert(key@, JVal::Arr(array_items(*value))),
{
    o.add_array(key, value)
}

/// `Object::add_bool`: the object with the field `key` set to the Boolean.
#[verifier::external_body]
pub(crate) fn add_bool(o: &Object, key: &str, value: bool) -> (res: Object)
    ensures
        object_fields(res) == object_fields(*o).insert(key@, JVal::Bool(value)),
{
    o.add_bool(key, value)
}

/// `Object::add_integer`: the object with the field `key` set to the integer.
#[verifier::external_body]
pub(crate) fn add_integer(o: &Object, key: &str, value: i128) -> (res: Object)
    ensures
        object_fields(res) == object_fields(*o).insert(key@, JVal::Int(value as int)),
{
    o.add_integer(key, value)
}

/// `Object::get_string`: the field `key` where it is a string.
#[verifier::external_body]
pub(crate) fn get_string(o: &Object, key: &str) -> (res: Option<String>)
    ensures
        match res {
            Some(s) => field_str(object_fields(*o), key@) == Some(s@),
            None => field_str(object_fields(*o), key@) is None,
        },
{
    o.get_string(key)
}

/// `Object::get_object`: the field `key` where it is an object.
#[verifier::external_body]
pub(crate) fn get_object(o: &Object, key: &str) -> (res: Option<Object>)
    ensures
        match res {
            Some(r) => field_obj(object_fields(*o), key@) == Some(object_fields(r)),
            None => field_obj(object_fields(*o), key@) is None,
        },
{
    o.get_object(key)
}

/// `Object::get_array`: the field `key` where it is an array.
#[verifier::external_body]
pub(crate) fn get_array(o: &Object, key: &str) -> (res: Option<Array>)
    ensures
        match res {
            Some(r) => field_arr(object_fields(*o), key@) == Some(array_items(r)),
            None => field_arr(object_fields(*o), key@) is None,
        },
{
    o.get_array(key)
}

/// `Object::get_bool`: the field `key` where it is a Boolean.
#[verifier::external_body]
pub(crate) fn get_bool(o: &Object, key: &str) -> (res: Option<bool>)
    ensures
        res == field_bool(object_fields(*o), key@),
{
    o.get_bool(key)
}

/// `Object::get_integer`: the field `key` where it is an integer. The
/// integers that such an object holds are those of an `i128`.
#[verifier::external_body]
pub(crate) fn get_integer(o: &Object, key: &str) -> (res: Option<i128>)
    ensures
        match res {
            Some(i) => field_int(object_fields(*o), key@) == Some(i as int),
            None => field_int(object_fields(*o), key@) is None,
        },
{
    o.get_integer(key)
}

/// `Object::get_p`: the value that a JSON pointer designates in the object,
/// as `JsonPointer::from_str` and `JsonPointer::get` find it.
#[verifier::external_body]
pub(crate) fn get_pointer(o: &Object, pointer: &str) -> (res: Option<Value>)
    ensures
        match res {
            Some(v) => pointer_target(object_fields(*o), pointer@) == Some(value_view(v)),
            None => pointer_target(object_fields(*o), pointer@) is None,
        },
{
    o.get_p(pointer)
}

/// `Object::merge`: the fields of `o`, overwritten by those of `other`.
#[verifier::external_body]
pub(crate) fn merge(o: &Object, other: &Object) -> (res: Object)
    ensures
        object_fields(res) == object_fields(*o).union_prefer_right(object_fields(*other)),
{
    o.merge(other)
}

/// `Object::iter`: the fields of the object, each once, in the order of the
/// underlying hash map, which depends on a hasher that each process seeds.
#[verifier::external_body]
pub(crate) fn object_entries(o: &Object) -> (res: Vec<(String, Value)>)
    ensures
        is_listing(object_fields(*o), entry_views(res@)),
{
    o.iter().collect()
}

/// `Array::new`: an empty array.
#[verifier::external_body]
pub(crate) fn array_new() -> (res: Array)
    ensures
        array_items(res) == no_items(),
{
    Array::new()
}

/// `Array::add_string`: the array with the string appended.
#[verifier::external_body]
pub(crate) fn array_add_string(a: &Array, value: &str) -> (res: Array)
    ensures
        array_items(res) == array_items(*a).push(JVal::Str(value@)),
{
    a.add_string(value)
}

/// `Array::add_object`: the array with the object appended.
#[verifier::external_body]
pub(crate) fn array_add_object(a: &Array, value: &Object) -> (res: Array)
    ensures
        array_items(res) == array_items(*a).push(JVal::Obj(object_fields(*value))),
{
    a.add_object(value)
}

/// `Array::append`: the elements of `a` followed by those of `other`.
#[verifier::external_body]
pub(crate) fn array_append(a: &Array, other: &Array) -> (res: Array)
    ensures
        array_items(res) == array_items(*a) + array_items(*other),
{
    a.append(other)
}

/// `Array::iter`: the elements of the array, in order.
#[verifier::external_body]
pub(crate) fn array_values(a: &Array) -> (res: Vec<Value>)
    ensures
        value_views(res@) == array_items(*a),
{
    a.iter().collect()
}

/// `Value::Object`: the object as a value.
#[verifier::external_body]
pub(crate) fn object_value(o: &Object) -> (res: Value)
    ensures
        value_view(res) == JVal::Obj(object_fields(*o)),
{
    Value::Object(o.clone())
}

/// `Value::Array`: the array as a value.
#[verifier::external_body]
pub(crate) fn array_value(a: &Array) -> (res: Value)
    ensures
        value_view(res) == JVal::Arr(array_items(*a)),
{
    Value::Array(a.clone())
}

/// `Value::as_object`: the value where it is an object.
#[verifier::external_body]
pub(crate) fn as_object(v: &Value) -> (res: Option<Object>)
    ensures
        match res {
            Some(o) => value_view(*v) == JVal::Obj(object_fields(o)),
            None => !(value_view(*v) is Obj),
        },
{
    v.as_object()
}

/// `Value::as_string`: the value where it is a string.
#[verifier::external_body]
pub(crate) fn as_string(v: &Value) -> (res: Option<String>)
    ensures
        match res {
            Some(s) => value_view(*v) == JVal::Str(s@),
            None => !(value_view(*v) is Str),
        },
{
    v.as_string()
}

/// `Value::from_str`: parses JSON text. It fails exactly where `serde_json`
/// does not accept the text, since every value that `serde_json` produces
/// converts.
#[verifier::external_body]
pub(crate) fn parse_json(text: &str) -> (res: Result<Value, immutable_json::error::Error>)
    ensures
        match res {
            Ok(v) => json_text_value(text@) == Some(value_view(v)),
            Err(_) => json_text_value(text@) is None,
        },
{
    Value::from_str(text)
}

/// `serde_yaml::from_str` into a `serde_json::Value`.
#[verifier::external_body]
pub(crate) fn parse_yaml(text: &str) -> (res: Result<serde_json::Value, serde_yaml::Error>)
    ensures
        match res {
            Ok(v) => yaml_text_value(text@) == Some(serde_view(v)),
            Err(_) => yaml_text_value(text@) is None,
        },
{
    serde_yaml::from_str(text)
}

/// `immutable_json::serde::from_value`: every `serde_json` value converts,
/// integers to integers and other numbers to doubles.
#[verifier::external_body]
pub(crate) fn from_serde(v: &serde_json::Value) -> (res: Option<Value>)
    ensures
        match res {
            Some(r) => value_view(r) == serde_view(*v),
            None => false,
        },
{
    immutable_json::serde::from_value(v)
}

/// `serde_json::Value::try_from` an immutable JSON value. It fails exactly
/// where the value itself is a number that `serde_json` cannot hold; such
/// numbers inside arrays and objects are dropped. For a value without such
/// numbers the result keeps the value; what it is for a value with such
/// numbers nested inside is not stated here.
#[verifier::external_body]
pub(crate) fn to_serde(v: &Value) -> (res: Result<serde_json::Value, immutable_json::error::Error>)
    ensures
        res is Ok <==> number_convertible(value_view(*v)),
        serializable(value_view(*v)) ==> (res matches Ok(s) ==> serde_view(s) == value_view(*v)),
{
    serde_json::Value::try_from(v.clone())
}

/// `serde_yaml::to_string` of a `serde_json::Value`. It succeeds: the
/// serializer fails only on byte strings, nested enum variants and output
/// that is not UTF-8, and a `serde_json::Value` gives none of these (its
/// numbers are written as `u64`, `i64` or `f64`, its maps have string keys),
/// while the emitter writes well-formed events into a `Vec`.
#[verifier::external_body]
pub(crate) fn yaml_string(v: &serde_json::Value) -> (res: Result<String, serde_yaml::Error>)
    ensures
        res is Ok,
        res matches Ok(s) ==> s@ == yaml_text(serde_view(*v)),
{
    serde_yaml::to_string(v)
}

} // verus!
