//! The persistent collections of the `imbl` crate that the model keeps its
//! parts in. Each collection sits in a struct of its own whose contents are
//! modelled as a sequence or a map of views, and every operation on it states
//! its effect on that model.
use vstd::prelude::*;
use crate::json::{is_listing, JFields, object_fields};
use crate::model::{Aggregate, AggregateV, Field, FieldV, SchemaObject, SchemaObjectV, merged};
use immutable_json::object::Object;

verus! {

/// The fields of a schema object, in order: an `imbl::Vector<Field>`.
#[verifier::external_body]
pub struct FieldList {
    items: imbl::Vector<Field>,
}

/// Schema objects by name: an `imbl::HashMap<String, SchemaObject>`.
#[verifier::external_body]
pub struct SchemaMap {
    map: imbl::HashMap<String, SchemaObject>,
}

/// Aggregates by entity: an `imbl::HashMap<String, Aggregate>`.
#[verifier::external_body]
pub struct AggregateMap {
    map: imbl::HashMap<String, Aggregate>,
}

/// JSON objects in order: an `imbl::Vector<Object>`.
#[verifier::external_body]
pub struct ObjectList {
    items: imbl::Vector<Object>,
}

impl Clone for FieldList {
    /// The `Clone` of the `imbl` collection, which shares its nodes.
    #[verifier::external_body]
    fn clone(&self) -> (res: Self)
        ensures
            field_items(res) == field_items(*self),
    {
        FieldList { items: self.items.clone() }
    }
}

impl Clone for SchemaMap {
    /// The `Clone` of the `imbl` collection, which shares its nodes.
    #[verifier::external_body]
    fn clone(&self) -> (res: Self)
        ensures
            schema_entries(res) == schema_entries(*self),
    {
        SchemaMap { map: self.map.clone() }
    }
}

impl Clone for AggregateMap {
    /// The `Clone` of the `imbl` collection, which shares its nodes.
    #[verifier::external_body]
    fn clone(&self) -> (res: Self)
        ensures
            aggregate_entries(res) == aggregate_entries(*self),
    {
        AggregateMap { map: self.map.clone() }
    }
}

impl Clone for ObjectList {
    /// The `Clone` of the `imbl` collection, which shares its nodes.
    #[verifier::external_body]
    fn clone(&self) -> (res: Self)
        ensures
            object_items(res) == object_items(*self),
    {
        ObjectList { items: self.items.clone() }
    }
}

/// The fields that a field list holds.
pub uninterp spec fn field_items(l: FieldList) -> Seq<FieldV>;

/// The schema objects that a schema map holds, by key.
pub uninterp spec fn schema_entries(m: SchemaMap) -> Map<Seq<char>, SchemaObjectV>;

/// The aggregates that an aggregate map holds, by key.
pub uninterp spec fn aggregate_entries(m: AggregateMap) -> Map<Seq<char>, AggregateV>;

/// The objects that an object list holds.
pub uninterp spec fn object_items(l: ObjectList) -> Seq<JFields>;

/// A map with finitely many keys, `n` of them.
pub open spec fn has_size<V>(m: Map<Seq<char>, V>, n: nat) -> bool {
    m.dom().finite() && m.dom().len() == n
}

pub open spec fn field_views(s: Seq<Field>) -> Seq<FieldV> {
    Seq::new(s.len(), |i: int| s[i]@)
}

pub open spec fn schema_entry_views(s: Seq<(String, SchemaObject)>) -> Seq<(Seq<char>, SchemaObjectV)> {
    Seq::new(s.len(), |i: int| (s[i].0@, s[i].1@))
}

pub open spec fn aggregate_entry_views(s: Seq<(String, Aggregate)>) -> Seq<(Seq<char>, AggregateV)> {
    Seq::new(s.len(), |i: int| (s[i].0@, s[i].1@))
}

pub open spec fn object_views(s: Seq<Object>) -> Seq<JFields> {
    Seq::new(s.len(), |i: int| object_fields(s[i]))
}

/// `Vector::new`: an empty field list.
#[verifier::external_body]
pub(crate) fn field_list_new() -> (res: FieldList)
    ensures
        field_items(res).len() == 0,
{
    FieldList { items: imbl::Vector::new() }
}

/// `imbl_util::vector::push_back`: the list with the field appended.
#[verifier::external_body]
pub(crate) fn field_list_push(l: &FieldList, f: Field) -> (res: FieldList)
    ensures
        field_items(res) == field_items(*l).push(f@),
{
    FieldList { items: imbl_util::vector::push_back(&l.items, f) }
}

/// `Vector::iter`: copies of the fields, in order.
#[verifier::external_body]
pub(crate) fn field_list_items(l: &FieldList) -> (res: Vec<Field>)
    ensures
        field_views(res@) == field_items(*l),
{
    l.items.iter().cloned().collect()
}

/// `HashMap::new`: an empty schema map.
#[verifier::external_body]
pub(crate) fn schema_map_new() -> (res: SchemaMap)
    ensures
        schema_entries(res).dom().len() == 0,
        schema_entries(res).dom().finite(),
{
    SchemaMap { map: imbl::HashMap::new() }
}

/// `imbl_util::hashmap::insert`: the map with `key` bound to `s`.
#[verifier::external_body]
pub(crate) fn schema_map_insert(m: &SchemaMap, key: String, s: SchemaObject) -> (res: SchemaMap)
    ensures
        schema_entries(res) == schema_entries(*m).insert(key@, s@),
{
    SchemaMap { map: imbl_util::hashmap::insert(&m.map, key, s).0 }
}

/// `imbl_util::hashmap::merge(map, into)`: the union of both maps, where the
/// entries of `map` win.
#[verifier::external_body]
pub(crate) fn schema_map_merge(map: &SchemaMap, into: &SchemaMap) -> (res: SchemaMap)
    ensures
        schema_entries(res) == schema_entries(*into).union_prefer_right(schema_entries(*map)),
{
    SchemaMap { map: imbl_util::hashmap::merge(&map.map, &into.map) }
}

/// `HashMap::get`: the schema object bound to `key`.
#[verifier::external_body]
pub(crate) fn schema_map_get<'a>(m: &'a SchemaMap, key: &String) -> (res: Option<&'a SchemaObject>)
    ensures
        match res {
            Some(s) => schema_entries(*m).contains_key(key@) && schema_entries(*m)[key@] == s@,
            None => !schema_entries(*m).contains_key(key@),
        },
{
    m.map.get(key)
}

/// `HashMap::iter`: copies of the entries, each key once, in the order of
/// the underlying hash map, which depends on a hasher that each process seeds.
#[verifier::external_body]
pub(crate) fn schema_map_entries(m: &SchemaMap) -> (res: Vec<(String, SchemaObject)>)
    ensures
        is_listing(schema_entries(*m), schema_entry_views(res@)),
{
    m.map.iter().map(|(k, v)| (k.clone(), v.clone())).collect()
}

/// `HashMap::len`: the number of schema objects in the map, which holds
/// finitely many.
#[verifier::external_body]
pub(crate) fn schema_map_len(m: &SchemaMap) -> (res: usize)
    ensures
        has_size(schema_entries(*m), res as nat),
{
    m.map.len()
}

/// `HashMap::new`: an empty aggregate map.
#[verifier::external_body]
pub(crate) fn aggregate_map_new() -> (res: AggregateMap)
    ensures
        aggregate_entries(res).dom().len() == 0,
        aggregate_entries(res).dom().finite(),
{
    AggregateMap { map: imbl::HashMap::new() }
}

/// `HashMap::update_with` with `model::merge` as the function that joins
/// an aggregate already in the map with the new one.
#[verifier::external_body]
pub(crate) fn aggregate_map_update(m: &AggregateMap, key: String, a: Aggregate) -> (res: AggregateMap)
    ensures
        aggregate_entries(res) == (if aggregate_entries(*m).contains_key(key@) {
            aggregate_entries(*m).insert(key@, merged(aggregate_entries(*m)[key@], a@))
        } else {
            aggregate_entries(*m).insert(key@, a@)
        }),
{
    AggregateMap { map: m.map.update_with(key, a, |old, new| crate::model::merge(old, new)) }
}

/// `HashMap::get`: the aggregate bound to `key`.
#[verifier::external_body]
pub(crate) fn aggregate_map_get<'a>(m: &'a AggregateMap, key: &String) -> (res: Option<&'a Aggregate>)
    ensures
        match res {
            Some(a) => aggregate_entries(*m).contains_key(key@) && aggregate_entries(*m)[key@] == a@,
            None => !aggregate_entries(*m).contains_key(key@),
        },
{
    m.map.get(key)
}

/// `HashMap::iter`: copies of the entries, each key once, in the order of
/// the underlying hash map, which depends on a hasher that each process seeds.
#[verifier::external_body]
pub(crate) fn aggregate_map_entries(m: &AggregateMap) -> (res: Vec<(String, Aggregate)>)
    ensures
        is_listing(aggregate_entries(*m), aggregate_entry_views(res@)),
        forall|i: int| 0 <= i < res@.len() ==> (#[trigger] res@[i]).1@.commands.dom().finite(),
{
    m.map.iter().map(|(k, v)| (k.clone(), v.clone())).collect()
}

/// `Vector::new`: an empty object list.
#[verifier::external_body]
pub(crate) fn object_list_new() -> (res: ObjectList)
    ensures
        object_items(res).len() == 0,
{
    ObjectList { items: imbl::Vector::new() }
}

/// `imbl_util::vector::push_back`: the list with the object appended.
#[verifier::external_body]
pub(crate) fn object_list_push(l: &ObjectList, o: Object) -> (res: ObjectList)
    ensures
        object_items(res) == object_items(*l).push(object_fields(o)),
{
    ObjectList { items: imbl_util::vector::push_back(&l.items, o) }
}

/// `imbl_util::vector::append`: the objects of `l` followed by those of `other`.
#[verifier::external_body]
pub(crate) fn object_list_append(l: &ObjectList, other: &ObjectList) -> (res: ObjectList)
    ensures
        object_items(res) == object_items(*l) + object_items(*other),
{
    ObjectList { items: imbl_util::vector::append(&l.items, &other.items) }
}

/// `Vector::iter`: copies of the objects, in order.
#[verifier::external_body]
pub(crate) fn object_list_items(l: &ObjectList) -> (res: Vec<Object>)
    ensures
        object_views(res@) == object_items(*l),
{
    l.items.iter().cloned().collect()
}

impl FieldList {
    /// The fields, in order.
    pub fn to_vec(&self) -> (res: Vec<Field>)
        ensures
            field_views(res@) == field_items(*self),
    {
        field_list_items(self)
    }
}

impl SchemaMap {
    /// The schema object bound to `key`, if any.
    pub fn get<'a>(&'a self, key: &String) -> (res: Option<&'a SchemaObject>)
        ensures
            match res {
                Some(s) => schema_entries(*self).contains_key(key@) && schema_entries(*self)[key@] == s@,
                None => !schema_entries(*self).contains_key(key@),
            },
    {
        schema_map_get(self, key)
    }

    /// The number of schema objects.
    pub fn len(&self) -> (res: usize)
        ensures
            has_size(schema_entries(*self), res as nat),
    {
        schema_map_len(self)
    }
}

impl AggregateMap {
    /// The aggregate bound to `key`, if any.
    pub fn get<'a>(&'a self, key: &String) -> (res: Option<&'a Aggregate>)
        ensures
            match res {
                Some(a) => aggregate_entries(*self).contains_key(key@) && aggregate_entries(*self)[key@] == a@,
                None => !aggregate_entries(*self).contains_key(key@),
            },
    {
        aggregate_map_get(self, key)
    }
}

} // verus!
