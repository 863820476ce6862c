//! The application model that the generators work from, and how it is
//! extracted from a Qlerify event model.
use vstd::prelude::*;
use crate::collections::{
    AggregateMap, FieldList, SchemaMap, aggregate_entries, aggregate_map_new, aggregate_map_update,
    field_items, field_list_new, field_list_push, schema_entries, schema_map_insert, schema_map_merge,
    schema_map_new,
};
use crate::error::{ToolError, ToolErrorV, result_view};
use crate::json::{
    JFields, JVal, array_values, as_object, as_string, entry_views, field_arr, field_bool, field_int,
    field_obj, field_str, get_array, get_bool, get_integer, get_pointer, get_string,
    is_listing, lemma_listing_entry, no_fields, object_entries, object_fields, object_new, pointer_obj, pointer_str,
    value_view, value_views,
};
use crate::text::{integer_text, integer_to_string, lemma_split_join, lemma_split_nonempty, lemma_split_single, split, split_spec, text_eq};
use immutable_json::api::Value;
use immutable_json::object::Object;

verus! {

/// An aggregate: the commands that change it, by name, and the entity that
/// holds its state.
pub struct Aggregate {
    pub commands: SchemaMap,
    pub entity: String,
}

/// An application: its aggregates by entity, its entities and value objects
/// by name, its name and its version.
pub struct App {
    pub aggregates: AggregateMap,
    pub entities: SchemaMap,
    pub name: String,
    pub value_objects: SchemaMap,
    pub version: String,
}

/// What a field refers to.
pub enum Related {
    Entity(String),
    ValueObject(String),
}

/// A field of a command, an entity or a value object.
pub struct Field {
    pub data_type: String,
    pub description: Option<String>,
    pub name: String,
    pub related: Option<Related>,
    pub required: bool,
}

/// A command, an entity or a value object.
pub struct SchemaObject {
    pub description: Option<String>,
    pub fields: FieldList,
    pub name: String,
}

/// A reference of the form `#/schemas/<kind>/<name>`.
pub struct SchemaRef {
    pub kind: String,
    pub name: String,
}

pub struct AggregateV {
    pub commands: Map<Seq<char>, SchemaObjectV>,
    pub entity: Seq<char>,
}

pub struct AppV {
    pub aggregates: Map<Seq<char>, AggregateV>,
    pub entities: Map<Seq<char>, SchemaObjectV>,
    pub name: Seq<char>,
    pub value_objects: Map<Seq<char>, SchemaObjectV>,
    pub version: Seq<char>,
}

pub enum RelatedV {
    Entity(Seq<char>),
    ValueObject(Seq<char>),
}

pub struct FieldV {
    pub data_type: Seq<char>,
    pub description: Option<Seq<char>>,
    pub name: Seq<char>,
    pub related: Option<RelatedV>,
    pub required: bool,
}

pub struct SchemaObjectV {
    pub description: Option<Seq<char>>,
    pub fields: Seq<FieldV>,
    pub name: Seq<char>,
}

pub open spec fn opt_text(o: Option<String>) -> Option<Seq<char>> {
    match o {
        Some(s) => Some(s@),
        None => None,
    }
}

impl View for Aggregate {
    type V = AggregateV;

    open spec fn view(&self) -> AggregateV {
        AggregateV { commands: schema_entries(self.commands), entity: self.entity@ }
    }
}

impl View for App {
    type V = AppV;

    open spec fn view(&self) -> AppV {
        AppV {
            aggregates: aggregate_entries(self.aggregates),
            entities: schema_entries(self.entities),
            name: self.name@,
            value_objects: schema_entries(self.value_objects),
            version: self.version@,
        }
    }
}

impl View for Related {
    type V = RelatedV;

    open spec fn view(&self) -> RelatedV {
        match self {
            Related::Entity(s) => RelatedV::Entity(s@),
            Related::ValueObject(s) => RelatedV::ValueObject(s@),
        }
    }
}

impl View for Field {
    type V = FieldV;

    open spec fn view(&self) -> FieldV {
        FieldV {
            data_type: self.data_type@,
            description: opt_text(self.description),
            name: self.name@,
            related: match self.related {
                Some(r) => Some(r@),
                None => None,
            },
            required: self.required,
        }
    }
}

impl View for SchemaObject {
    type V = SchemaObjectV;

    open spec fn view(&self) -> SchemaObjectV {
        SchemaObjectV {
            description: opt_text(self.description),
            fields: field_items(self.fields),
            name: self.name@,
        }
    }
}

impl Clone for Aggregate {
    fn clone(&self) -> (res: Self)
        ensures
            res@ == self@,
    {
        Aggregate { commands: self.commands.clone(), entity: self.entity.clone() }
    }
}

impl Clone for App {
    fn clone(&self) -> (res: Self)
        ensures
            res@ == self@,
    {
        App {
            aggregates: self.aggregates.clone(),
            entities: self.entities.clone(),
            name: self.name.clone(),
            value_objects: self.value_objects.clone(),
            version: self.version.clone(),
        }
    }
}

impl Clone for Related {
    fn clone(&self) -> (res: Self)
        ensures
            res@ == self@,
    {
        match self {
            Related::Entity(e) => Related::Entity(e.clone()),
            Related::ValueObject(v) => Related::ValueObject(v.clone()),
        }
    }
}

impl Clone for Field {
    fn clone(&self) -> (res: Self)
        ensures
            res@ == self@,
    {
        let related = copy_related(&self.related);
        let res = Field {
            data_type: self.data_type.clone(),
            description: copy_opt_text(&self.description),
            name: self.name.clone(),
            related,
            required: self.required,
        };
        proof {
            assert(res@.related == self@.related);
        }
        res
    }
}

impl Clone for SchemaObject {
    fn clone(&self) -> (res: Self)
        ensures
            res@ == self@,
    {
        SchemaObject { description: copy_opt_text(&self.description), fields: self.fields.clone(), name: self.name.clone() }
    }
}

/// Two aggregates of the same entity joined: the commands of both, where
/// those of the newer one win.
pub open spec fn merged(old: AggregateV, new: AggregateV) -> AggregateV {
    AggregateV { commands: old.commands.union_prefer_right(new.commands), entity: old.entity }
}

/// Joins an aggregate with a newer one of the same entity.
pub fn merge(old_value: Aggregate, new_value: Aggregate) -> (res: Aggregate)
    ensures
        res@ == merged(old_value@, new_value@),
{
    Aggregate {
        commands: schema_map_merge(&new_value.commands, &old_value.commands),
        entity: old_value.entity,
    }
}

pub open spec fn text_views(s: Seq<String>) -> Seq<Seq<char>> {
    Seq::new(s.len(), |i: int| s[i]@)
}

/// The last segment of a slash-separated reference.
pub open spec fn name_spec(pointer: Seq<char>) -> Seq<char> {
    split_spec(pointer, '/').last()
}

/// The name that a reference ends with: what follows its last slash, or the
/// whole reference where it has none. It never fails.
pub fn name(pointer: &str) -> (res: Result<String, ToolError>)
    ensures
        res matches Ok(s) && s@ == name_spec(pointer@),
{
    let pieces = split(pointer, '/');
    proof {
        lemma_split_nonempty(pointer@, '/');
    }
    let last = pieces.len() - 1;
    Ok(pieces[last].clone())
}

/// The JSON pointer in a local reference `#/...`: the reference without its
/// `#`.
pub open spec fn pointer_spec(reference: Seq<char>) -> Option<Seq<char>> {
    if reference.len() >= 2 && reference[0] == '#' && reference[1] == '/' {
        Some(reference.skip(1))
    } else {
        None
    }
}

/// The JSON pointer in a reference that starts with `#/`, and `None` for any
/// other reference.
pub fn pointer(reference: &str) -> (res: Option<String>)
    ensures
        opt_text(res) == pointer_spec(reference@),
{
    let n = reference.unicode_len();
    if n >= 2 && reference.get_char(0) == '#' && reference.get_char(1) == '/' {
        let rest = reference.substring_char(1, n);
        proof {
            assert(rest@ =~= reference@.skip(1));
        }
        Some(String::from_str(rest))
    } else {
        None
    }
}

/// The kind and the name in a reference `#/schemas/<kind>/<name>`.
pub open spec fn schema_ref_spec(reference: Seq<char>) -> Option<(Seq<char>, Seq<char>)> {
    let v = split_spec(reference, '/');
    if v.len() == 4 && v[0] == "#"@ && v[1] == "schemas"@ {
        Some((v[2], v[3]))
    } else {
        None
    }
}

/// Splits a reference of the form `#/schemas/<kind>/<name>` into its kind
/// and its name; any other reference gives `None`.
pub fn schema_ref(reference: &str) -> (res: Option<SchemaRef>)
    ensures
        match res {
            Some(r) => schema_ref_spec(reference@) == Some((r.kind@, r.name@)),
            None => schema_ref_spec(reference@) is None,
        },
{
    let v = split(reference, '/');
    if v.len() == 4 && text_eq(v[0].as_str(), "#") && text_eq(v[1].as_str(), "schemas") {
        Some(SchemaRef { kind: v[2].clone(), name: v[3].clone() })
    } else {
        None
    }
}

/// What the field `relatedEntity/$ref` of a field refers to, where it names
/// an entity or a value object.
pub open spec fn related_spec(field: JFields) -> Option<RelatedV> {
    match pointer_str(field, "/relatedEntity/$ref"@) {
        Some(r) => match schema_ref_spec(r) {
            Some((kind, name)) => if kind == "entities"@ {
                Some(RelatedV::Entity(name))
            } else if kind == "valueObjects"@ {
                Some(RelatedV::ValueObject(name))
            } else {
                None
            },
            None => None,
        },
        None => None,
    }
}

fn related(field: &Object) -> (res: Option<Related>)
    ensures
        match res {
            Some(r) => related_spec(object_fields(*field)) == Some(r@),
            None => related_spec(object_fields(*field)) is None,
        },
{
    let target = get_pointer(field, "/relatedEntity/$ref");
    let reference = match target {
        Some(v) => as_string(&v),
        None => None,
    };
    match reference {
        Some(r) => match schema_ref(r.as_str()) {
            Some(sr) => if text_eq(sr.kind.as_str(), "entities") {
                Some(Related::Entity(sr.name))
            } else if text_eq(sr.kind.as_str(), "valueObjects") {
                Some(Related::ValueObject(sr.name))
            } else {
                None
            },
            None => None,
        },
        None => None,
    }
}

/// The data type and the relation of a field: a relation makes it an
/// `array` or an `object`, depending on the field `array`; without one the
/// type is the field `data_type`, and `string` where that is missing.
pub open spec fn type_info_spec(field: JFields) -> (Seq<char>, Option<RelatedV>) {
    match related_spec(field) {
        Some(r) => if field_bool(field, "array"@) == Some(true) {
            ("array"@, Some(r))
        } else {
            ("object"@, Some(r))
        },
        None => (
            match field_str(field, "data_type"@) {
                Some(t) => t,
                None => "string"@,
            },
            None,
        ),
    }
}

fn type_info(field: &Object) -> (res: (String, Option<Related>))
    ensures
        type_info_spec(object_fields(*field)).0 == res.0@,
        type_info_spec(object_fields(*field)).1 == match res.1 {
            Some(r) => Some(r@),
            None => None,
        },
{
    let array = match get_bool(field, "array") {
        Some(b) => b,
        None => false,
    };
    match related(field) {
        Some(r) => if array {
            (String::from_str("array"), Some(r))
        } else {
            (String::from_str("object"), Some(r))
        },
        None => (
            match get_string(field, "data_type") {
                Some(t) => t,
                None => String::from_str("string"),
            },
            None,
        ),
    }
}

/// The strings among some JSON values, in order.
pub open spec fn strings_of(items: Seq<JVal>) -> Seq<Seq<char>>
    decreases items.len(),
{
    if items.len() == 0 {
        Seq::empty()
    } else {
        let r = strings_of(items.drop_last());
        match items.last() {
            JVal::Str(s) => r.push(s),
            _ => r,
        }
    }
}

/// The names in the array `required` of a schema.
pub open spec fn required_spec(schema: JFields) -> Seq<Seq<char>> {
    match field_arr(schema, "required"@) {
        Some(a) => strings_of(a),
        None => Seq::empty(),
    }
}

/// The strings in a list of JSON values, in order.
fn strings_in(values: &Vec<Value>) -> (res: Vec<String>)
    ensures
        text_views(res@) == strings_of(value_views(values@)),
{
    let mut res: Vec<String> = Vec::new();
    let mut i: usize = 0;
    while i < values.len()
        invariant
            i <= values@.len(),
            text_views(res@) == strings_of(value_views(values@).take(i as int)),
        decreases values@.len() - i,
    {
        proof {
            assert(value_views(values@).take(i + 1).drop_last() =~= value_views(values@).take(i as int));
        }
        match as_string(&values[i]) {
            Some(s) => {
                res.push(s);
            },
            None => {},
        }
        proof {
            assert(text_views(res@) =~= strings_of(value_views(values@).take(i + 1)));
        }
        i = i + 1;
    }
    proof {
        assert(value_views(values@).take(values@.len() as int) =~= value_views(values@));
    }
    res
}

fn required(schema: &Object) -> (res: Vec<String>)
    ensures
        text_views(res@) == required_spec(object_fields(*schema)),
{
    match get_array(schema, "required") {
        Some(a) => strings_in(&array_values(&a)),
        None => Vec::new(),
    }
}

fn contains_text(names: &Vec<String>, name: &String) -> (res: bool)
    ensures
        res == text_views(names@).contains(name@),
{
    let mut i: usize = 0;
    while i < names.len()
        invariant
            i <= names@.len(),
            forall|j: int| 0 <= j < i ==> names@[j]@ != name@,
        decreases names@.len() - i,
    {
        if text_eq(names[i].as_str(), name.as_str()) {
            proof {
                assert(text_views(names@)[i as int] == name@);
            }
            return true;
        }
        i = i + 1;
    }
    proof {
        if text_views(names@).contains(name@) {
            let j = choose|j: int| 0 <= j < text_views(names@).len() && text_views(names@)[j] == name@;
            assert(names@[j]@ == name@);
        }
    }
    false
}

/// A fold over a sequence that, once stuck, keeps its result: where it is
/// stuck on the first `n` items, all of them give the same result.
pub proof fn lemma_stuck_prefix<A, R>(f: spec_fn(Seq<A>) -> R, stuck: spec_fn(R) -> bool, s: Seq<A>, n: int)
    requires
        0 <= n <= s.len(),
        stuck(f(s.take(n))),
        forall|t: Seq<A>| t.len() > 0 && #[trigger] stuck(f(t.drop_last())) ==> f(t) == f(t.drop_last()),
    ensures
        f(s) == f(s.take(n)),
    decreases s.len() - n,
{
    if n < s.len() {
        assert(s.take(n + 1).drop_last() =~= s.take(n));
        lemma_stuck_prefix(f, stuck, s, n + 1);
    } else {
        assert(s.take(n) =~= s);
    }
}

/// The field that a JSON object describes, given the required names of its
/// schema.
pub open spec fn field_spec(object: JFields, required: Seq<Seq<char>>) -> Result<FieldV, ToolErrorV> {
    match field_str(object, "name"@) {
        None => Err(ToolErrorV::FieldNoName),
        Some(name) => Ok(FieldV {
            data_type: type_info_spec(object).0,
            description: field_str(object, "description"@),
            name,
            related: type_info_spec(object).1,
            required: required.contains(name),
        }),
    }
}

fn create_field(object: &Object, required: &Vec<String>) -> (res: Result<Field, ToolError>)
    ensures
        result_view(res, |f: Field| f@) == field_spec(object_fields(*object), text_views(required@)),
{
    let name = match get_string(object, "name") {
        Some(n) => n,
        None => {
            return Err(ToolError::FieldNoName);
        },
    };
    let (data_type, related) = type_info(object);
    let is_required = contains_text(required, &name);
    Ok(Field { name, data_type, required: is_required, description: get_string(object, "description"), related })
}

/// The fields that some JSON values describe: those that are objects, in
/// order, up to the first that has no name.
pub open spec fn fields_from(items: Seq<JVal>, required: Seq<Seq<char>>) -> Result<Seq<FieldV>, ToolErrorV>
    decreases items.len(),
{
    if items.len() == 0 {
        Ok(Seq::empty())
    } else {
        match fields_from(items.drop_last(), required) {
            Err(e) => Err(e),
            Ok(fs) => match items.last() {
                JVal::Obj(o) => match field_spec(o, required) {
                    Ok(f) => Ok(fs.push(f)),
                    Err(e) => Err(e),
                },
                _ => Ok(fs),
            },
        }
    }
}

/// The fields of a schema: those in its array `fields`.
pub open spec fn fields_spec(schema: JFields) -> Result<Seq<FieldV>, ToolErrorV> {
    match field_arr(schema, "fields"@) {
        None => Ok(Seq::empty()),
        Some(a) => fields_from(a, required_spec(schema)),
    }
}

fn fields(schema: &Object) -> (res: Result<FieldList, ToolError>)
    ensures
        result_view(res, |l: FieldList| field_items(l)) == fields_spec(object_fields(*schema)),
{
    let required = required(schema);
    let array = match get_array(schema, "fields") {
        Some(a) => a,
        None => {
            let empty = field_list_new();
            proof {
                assert(field_items(empty) =~= Seq::<FieldV>::empty());
            }
            return Ok(empty);
        },
    };
    let values = array_values(&array);
    let ghost items = value_views(values@);
    let mut list = field_list_new();
    let mut i: usize = 0;
    proof {
        assert(items.take(0) =~= Seq::<JVal>::empty());
        assert(field_items(list) =~= Seq::<FieldV>::empty());
    }
    while i < values.len()
        invariant
            i <= values@.len(),
            items == value_views(values@),
            items == crate::json::array_items(array),
            text_views(required@) == required_spec(object_fields(*schema)),
            field_arr(object_fields(*schema), "fields"@) == Some(items),
            fields_from(items.take(i as int), text_views(required@)) == Ok::<Seq<FieldV>, ToolErrorV>(field_items(list)),
        decreases values@.len() - i,
    {
        proof {
            assert(items.take(i + 1).drop_last() =~= items.take(i as int));
        }
        match as_object(&values[i]) {
            Some(o) => {
                match create_field(&o, &required) {
                    Ok(f) => {
                        list = field_list_push(&list, f);
                    },
                    Err(e) => {
                        proof {
                            lemma_stuck_prefix(
                                |t: Seq<JVal>| fields_from(t, text_views(required@)),
                                |r: Result<Seq<FieldV>, ToolErrorV>| r is Err,
                                items,
                                i as int + 1,
                            );
                        }
                        return Err(e);
                    },
                }
            },
            None => {},
        }
        i = i + 1;
    }
    proof {
        assert(items.take(values@.len() as int) =~= items);
    }
    Ok(list)
}


/// The schema object that a JSON object describes under a name.
pub open spec fn schema_object_spec(name: Seq<char>, object: JFields) -> Result<SchemaObjectV, ToolErrorV> {
    match fields_spec(object) {
        Ok(fs) => Ok(SchemaObjectV { description: field_str(object, "description"@), fields: fs, name }),
        Err(e) => Err(e),
    }
}

fn schema_object(name: &str, object: &Object) -> (res: Result<SchemaObject, ToolError>)
    ensures
        result_view(res, |s: SchemaObject| s@) == schema_object_spec(name@, object_fields(*object)),
{
    let fields = match fields(object) {
        Ok(f) => f,
        Err(e) => {
            return Err(e);
        },
    };
    Ok(SchemaObject { description: get_string(object, "description"), fields, name: String::from_str(name) })
}

/// The schema objects that the entries of an object describe, by name, in
/// the order of the entries, up to the first that fails.
pub open spec fn schema_objects_from(es: Seq<(Seq<char>, JVal)>) -> Result<Map<Seq<char>, SchemaObjectV>, ToolErrorV>
    decreases es.len(),
{
    if es.len() == 0 {
        Ok(Map::empty())
    } else {
        match schema_objects_from(es.drop_last()) {
            Err(e) => Err(e),
            Ok(m) => match es.last().1 {
                JVal::Obj(o) => match schema_object_spec(es.last().0, o) {
                    Ok(so) => Ok(m.insert(so.name, so)),
                    Err(e) => Err(e),
                },
                _ => Ok(m),
            },
        }
    }
}

/// The object that a pointer designates in the model, or an empty one.
pub open spec fn pointed_or_empty(model: JFields, pointer: Seq<char>) -> JFields {
    match pointer_obj(model, pointer) {
        Some(o) => o,
        None => no_fields(),
    }
}


/// The schema objects under a pointer of the model: each field of the
/// object there that is an object becomes the schema object of that name.
/// The fields are taken in the order of the hash map that holds them, and
/// the first failure is reported.
fn get_schema_objects(model: &Object, pointer: &str) -> (res: Result<SchemaMap, ToolError>)
    ensures
        exists|es: Seq<(Seq<char>, JVal)>|
            is_listing(pointed_or_empty(object_fields(*model), pointer@), es)
                && result_view(res, |m: SchemaMap| schema_entries(m)) == schema_objects_from(es),
{
    let container = match get_pointer(model, pointer) {
        Some(v) => as_object(&v),
        None => None,
    };
    let container = match container {
        Some(o) => o,
        None => object_new(),
    };
    proof {
        assert(object_fields(container) =~= pointed_or_empty(object_fields(*model), pointer@));
    }
    let entries = object_entries(&container);
    let ghost es = entry_views(entries@);
    let mut map = schema_map_new();
    proof {
        assert(es.take(0) =~= Seq::<(Seq<char>, JVal)>::empty());
        assert(schema_entries(map) =~= Map::<Seq<char>, SchemaObjectV>::empty());
    }
    let mut i: usize = 0;
    while i < entries.len()
        invariant
            i <= entries@.len(),
            es == entry_views(entries@),
            is_listing(pointed_or_empty(object_fields(*model), pointer@), es),
            schema_objects_from(es.take(i as int)) == Ok::<Map<Seq<char>, SchemaObjectV>, ToolErrorV>(schema_entries(map)),
        decreases entries@.len() - i,
    {
        proof {
            assert(es.take(i + 1).drop_last() =~= es.take(i as int));
        }
        let (key, value) = &entries[i];
        match as_object(value) {
            Some(o) => match schema_object(key.as_str(), &o) {
                Ok(so) => {
                    let k = so.name.clone();
                    map = schema_map_insert(&map, k, so);
                },
                Err(e) => {
                    proof {
                        lemma_stuck_prefix(
                            |t: Seq<(Seq<char>, JVal)>| schema_objects_from(t),
                            |r: Result<Map<Seq<char>, SchemaObjectV>, ToolErrorV>| r is Err,
                            es,
                            i + 1,
                        );
                        assert(is_listing(pointed_or_empty(object_fields(*model), pointer@), es));
                        assert(result_view(Err::<SchemaMap, ToolError>(e), |m: SchemaMap| schema_entries(m)) == schema_objects_from(es));
                    }
                    return Err(e);
                },
            },
            None => {},
        }
        i = i + 1;
    }
    proof {
        assert(es.take(entries@.len() as int) =~= es);
        assert(is_listing(pointed_or_empty(object_fields(*model), pointer@), es));
        assert(result_view(Ok::<SchemaMap, ToolError>(map), |m: SchemaMap| schema_entries(m)) == schema_objects_from(es));
    }
    Ok(map)
}

/// The version of the model: its integer field `version` as text, or
/// `unknown`.
pub open spec fn version_spec(model: JFields) -> Seq<char> {
    match field_int(model, "version"@) {
        Some(i) => integer_text(i),
        None => "unknown"@,
    }
}

fn get_version(model: &Object) -> (res: String)
    ensures
        res@ == version_spec(object_fields(*model)),
{
    match get_integer(model, "version") {
        Some(i) => integer_to_string(i),
        None => String::from_str("unknown"),
    }
}

/// Texts joined with a separator between each two of them.
pub open spec fn joined(parts: Seq<Seq<char>>, sep: Seq<char>) -> Seq<char>
    decreases parts.len(),
{
    if parts.len() == 0 {
        Seq::empty()
    } else if parts.len() == 1 {
        parts[0]
    } else {
        joined(parts.drop_last(), sep) + sep + parts.last()
    }
}

/// The description of a command: the strings of the array
/// `acceptanceCriteria` of its event, one per line.
pub open spec fn command_description_spec(event: JFields) -> Option<Seq<char>> {
    match field_arr(event, "acceptanceCriteria"@) {
        Some(a) => Some(joined(strings_of(a), "\n"@)),
        None => None,
    }
}

fn join_lines(parts: &Vec<String>) -> (res: String)
    ensures
        res@ == joined(text_views(parts@), "\n"@),
{
    let mut res = String::new();
    let mut i: usize = 0;
    while i < parts.len()
        invariant
            i <= parts@.len(),
            res@ == joined(text_views(parts@).take(i as int), "\n"@),
        decreases parts@.len() - i,
    {
        proof {
            assert(text_views(parts@).take(i + 1).drop_last() =~= text_views(parts@).take(i as int));
        }
        if i > 0 {
            res.append("\n");
        } else {
            proof {
                assert(res@ =~= Seq::<char>::empty());
            }
        }
        res.append(parts[i].as_str());
        proof {
            if i == 0 {
                assert(res@ =~= text_views(parts@).take(1)[0]);
            }
        }
        i = i + 1;
    }
    proof {
        assert(text_views(parts@).take(parts@.len() as int) =~= text_views(parts@));
    }
    res
}

fn command_description(event: &Object) -> (res: Option<String>)
    ensures
        opt_text(res) == command_description_spec(object_fields(*event)),
{
    match get_array(event, "acceptanceCriteria") {
        Some(a) => Some(join_lines(&strings_in(&array_values(&a)))),
        None => None,
    }
}

/// The reference to the command of an event, at `command/$ref`.
pub open spec fn command_ref_spec(event: JFields) -> Result<Seq<char>, ToolErrorV> {
    match pointer_str(event, "/command/$ref"@) {
        Some(r) => Ok(r),
        None => Err(ToolErrorV::NoCommand(
            match field_str(event, "event"@) {
                Some(e) => e,
                None => "unknown"@,
            },
        )),
    }
}

fn get_command_ref(event: &Object) -> (res: Result<String, ToolError>)
    ensures
        result_view(res, |s: String| s@) == command_ref_spec(object_fields(*event)),
{
    let target = get_pointer(event, "/command/$ref");
    let reference = match target {
        Some(v) => as_string(&v),
        None => None,
    };
    match reference {
        Some(r) => Ok(r),
        None => Err(ToolError::NoCommand(
            match get_string(event, "event") {
                Some(e) => e,
                None => String::from_str("unknown"),
            },
        )),
    }
}

/// The object that a local reference designates in the model.
pub open spec fn referenced_object(model: JFields, reference: Seq<char>) -> Option<JFields> {
    match pointer_spec(reference) {
        Some(p) => pointer_obj(model, p),
        None => None,
    }
}

fn get_object(model: &Object, reference: &str) -> (res: Option<Object>)
    ensures
        match res {
            Some(o) => referenced_object(object_fields(*model), reference@) == Some(object_fields(o)),
            None => referenced_object(object_fields(*model), reference@) is None,
        },
{
    match pointer(reference) {
        Some(p) => match get_pointer(model, p.as_str()) {
            Some(v) => as_object(&v),
            None => None,
        },
        None => None,
    }
}

/// The schema that a reference designates, or the error `NoSchema`.
pub open spec fn schema_spec(model: JFields, reference: Seq<char>) -> Result<JFields, ToolErrorV> {
    match referenced_object(model, reference) {
        Some(o) => Ok(o),
        None => Err(ToolErrorV::NoSchema(reference)),
    }
}

fn get_schema(model: &Object, reference: &str) -> (res: Result<Object, ToolError>)
    ensures
        result_view(res, |o: Object| object_fields(o)) == schema_spec(object_fields(*model), reference@),
{
    match get_object(model, reference) {
        Some(o) => Ok(o),
        None => Err(ToolError::NoSchema(String::from_str(reference))),
    }
}

/// The command of an event: its schema is the one that `command/$ref`
/// designates, its name is the last segment of that reference.
pub open spec fn command_spec(event: JFields, model: JFields) -> Result<SchemaObjectV, ToolErrorV> {
    match command_ref_spec(event) {
        Err(e) => Err(e),
        Ok(reference) => match schema_spec(model, reference) {
            Err(e) => Err(e),
            Ok(schema) => match fields_spec(schema) {
                Err(e) => Err(e),
                Ok(fs) => Ok(SchemaObjectV {
                    description: command_description_spec(event),
                    fields: fs,
                    name: name_spec(reference),
                }),
            },
        },
    }
}

fn create_command(event: &Object, model: &Object) -> (res: Result<SchemaObject, ToolError>)
    ensures
        result_view(res, |s: SchemaObject| s@) == command_spec(object_fields(*event), object_fields(*model)),
{
    let reference = match get_command_ref(event) {
        Ok(r) => r,
        Err(e) => {
            return Err(e);
        },
    };
    let schema = match get_schema(model, reference.as_str()) {
        Ok(s) => s,
        Err(e) => {
            return Err(e);
        },
    };
    let fields = match fields(&schema) {
        Ok(f) => f,
        Err(e) => {
            return Err(e);
        },
    };
    let name = match name(reference.as_str()) {
        Ok(n) => n,
        Err(e) => {
            return Err(e);
        },
    };
    Ok(SchemaObject { description: command_description(event), fields, name })
}

/// The commands of an event: the one command, under its name.
pub open spec fn event_commands_spec(event: JFields, model: JFields) -> Result<Map<Seq<char>, SchemaObjectV>, ToolErrorV> {
    match command_spec(event, model) {
        Ok(c) => Ok(Map::empty().insert(c.name, c)),
        Err(e) => Err(e),
    }
}

fn get_command(event: &Object, model: &Object) -> (res: Result<SchemaMap, ToolError>)
    ensures
        result_view(res, |m: SchemaMap| schema_entries(m)) == event_commands_spec(object_fields(*event), object_fields(*model)),
{
    let command = match create_command(event, model) {
        Ok(c) => c,
        Err(e) => {
            return Err(e);
        },
    };
    let empty = schema_map_new();
    proof {
        assert(schema_entries(empty) =~= Map::<Seq<char>, SchemaObjectV>::empty());
    }
    let key = command.name.clone();
    Ok(schema_map_insert(&empty, key, command))
}

/// The aggregate of an event whose `aggregateRoot/$ref` is `reference`.
pub open spec fn aggregate_spec(event: JFields, reference: Seq<char>, model: JFields) -> Result<AggregateV, ToolErrorV> {
    match event_commands_spec(event, model) {
        Ok(cs) => Ok(AggregateV { commands: cs, entity: name_spec(reference) }),
        Err(e) => Err(e),
    }
}

fn create_aggregate(event: &Object, reference: &str, model: &Object) -> (res: Result<Aggregate, ToolError>)
    ensures
        result_view(res, |a: Aggregate| a@) == aggregate_spec(object_fields(*event), reference@, object_fields(*model)),
{
    let commands = match get_command(event, model) {
        Ok(c) => c,
        Err(e) => {
            return Err(e);
        },
    };
    let entity = match name(reference) {
        Ok(n) => n,
        Err(e) => {
            return Err(e);
        },
    };
    Ok(Aggregate { commands, entity })
}

/// An aggregate added to those of the same entity already found.
pub open spec fn add_aggregate(m: Map<Seq<char>, AggregateV>, a: AggregateV) -> Map<Seq<char>, AggregateV> {
    if m.contains_key(a.entity) {
        m.insert(a.entity, merged(m[a.entity], a))
    } else {
        m.insert(a.entity, a)
    }
}

/// The aggregates of the domain events, taken in the given order: each event
/// that is an object with an `aggregateRoot/$ref` contributes its aggregate,
/// and the first failure is reported.
pub open spec fn aggregates_from(model: JFields, es: Seq<(Seq<char>, JVal)>) -> Result<Map<Seq<char>, AggregateV>, ToolErrorV>
    decreases es.len(),
{
    if es.len() == 0 {
        Ok(Map::empty())
    } else {
        match aggregates_from(model, es.drop_last()) {
            Err(e) => Err(e),
            Ok(m) => match es.last().1 {
                JVal::Obj(event) => match pointer_str(event, "/aggregateRoot/$ref"@) {
                    Some(reference) => match aggregate_spec(event, reference, model) {
                        Ok(a) => Ok(add_aggregate(m, a)),
                        Err(e) => Err(e),
                    },
                    None => Ok(m),
                },
                _ => Ok(m),
            },
        }
    }
}

/// The domain events of the model, or none.
pub open spec fn domain_events(model: JFields) -> JFields {
    match field_obj(model, "domainEvents"@) {
        Some(o) => o,
        None => no_fields(),
    }
}

/// What the aggregates of a model are when the domain events are taken in
/// the order `es`.
pub open spec fn aggregates_spec(model: JFields, es: Seq<(Seq<char>, JVal)>) -> Result<Map<Seq<char>, AggregateV>, ToolErrorV> {
    if field_obj(model, "domainEvents"@) is None {
        Err(ToolErrorV::NoDomainEvents)
    } else {
        aggregates_from(model, es)
    }
}


/// The aggregates of a model. The domain events are taken in the order of
/// the hash map that holds them.
fn get_aggregates(model: &Object) -> (res: Result<AggregateMap, ToolError>)
    ensures
        exists|es: Seq<(Seq<char>, JVal)>|
            is_listing(domain_events(object_fields(*model)), es)
                && result_view(res, |m: AggregateMap| aggregate_entries(m)) == aggregates_spec(object_fields(*model), es),
{
    let events = match crate::json::get_object(model, "domainEvents") {
        Some(e) => e,
        None => {
            proof {
                let es = Seq::<(Seq<char>, JVal)>::empty();
                assert(domain_events(object_fields(*model)) == no_fields());
                assert(is_listing(domain_events(object_fields(*model)), es));
                assert(result_view(Err::<AggregateMap, ToolError>(ToolError::NoDomainEvents), |m: AggregateMap| aggregate_entries(m))
                    == aggregates_spec(object_fields(*model), es));
            }
            return Err(ToolError::NoDomainEvents);
        },
    };
    proof {
        assert(domain_events(object_fields(*model)) == object_fields(events));
    }
    let entries = object_entries(&events);
    let ghost es = entry_views(entries@);
    let mut map = aggregate_map_new();
    proof {
        assert(es.take(0) =~= Seq::<(Seq<char>, JVal)>::empty());
        assert(aggregate_entries(map) =~= Map::<Seq<char>, AggregateV>::empty());
    }
    let mut i: usize = 0;
    while i < entries.len()
        invariant
            i <= entries@.len(),
            es == entry_views(entries@),
            is_listing(domain_events(object_fields(*model)), es),
            field_obj(object_fields(*model), "domainEvents"@) is Some,
            aggregates_from(object_fields(*model), es.take(i as int)) == Ok::<Map<Seq<char>, AggregateV>, ToolErrorV>(aggregate_entries(map)),
        decreases entries@.len() - i,
    {
        proof {
            assert(es.take(i + 1).drop_last() =~= es.take(i as int));
        }
        let (_, value) = &entries[i];
        match as_object(value) {
            Some(event) => {
                let target = get_pointer(&event, "/aggregateRoot/$ref");
                let reference = match target {
                    Some(v) => as_string(&v),
                    None => None,
                };
                match reference {
                    Some(r) => match create_aggregate(&event, r.as_str(), model) {
                        Ok(a) => {
                            let key = a.entity.clone();
                            map = aggregate_map_update(&map, key, a);
                        },
                        Err(e) => {
                            proof {
                                lemma_stuck_prefix(
                                    |t: Seq<(Seq<char>, JVal)>| aggregates_from(object_fields(*model), t),
                                    |r: Result<Map<Seq<char>, AggregateV>, ToolErrorV>| r is Err,
                                    es,
                                    i + 1,
                                );
                                assert(is_listing(domain_events(object_fields(*model)), es));
                                assert(result_view(Err::<AggregateMap, ToolError>(e), |m: AggregateMap| aggregate_entries(m))
                                    == aggregates_spec(object_fields(*model), es));
                            }
                            return Err(e);
                        },
                    },
                    None => {},
                }
            },
            None => {},
        }
        i = i + 1;
    }
    proof {
        assert(es.take(entries@.len() as int) =~= es);
        assert(is_listing(domain_events(object_fields(*model)), es));
        assert(result_view(Ok::<AggregateMap, ToolError>(map), |m: AggregateMap| aggregate_entries(m))
            == aggregates_spec(object_fields(*model), es));
    }
    Ok(map)
}

/// What the application of a model is when the domain events, the entities
/// and the value objects are taken in the orders `ea`, `ee` and `ev`.
pub open spec fn extract_spec(
    model: JFields,
    ea: Seq<(Seq<char>, JVal)>,
    ee: Seq<(Seq<char>, JVal)>,
    ev: Seq<(Seq<char>, JVal)>,
) -> Result<AppV, ToolErrorV> {
    match aggregates_spec(model, ea) {
        Err(e) => Err(e),
        Ok(aggregates) => match field_str(model, "boundedContext"@) {
            None => Err(ToolErrorV::NoBoundedContext),
            Some(name) => match schema_objects_from(ee) {
                Err(e) => Err(e),
                Ok(entities) => match schema_objects_from(ev) {
                    Err(e) => Err(e),
                    Ok(value_objects) => Ok(AppV {
                        aggregates,
                        entities,
                        name,
                        value_objects,
                        version: version_spec(model),
                    }),
                },
            },
        },
    }
}

/// The places in a model where entities and value objects are.
pub open spec fn entities_pointer() -> Seq<char> {
    "/schemas/entities"@
}

pub open spec fn value_objects_pointer() -> Seq<char> {
    "/schemas/valueObjects"@
}

/// Extracts the application from a Qlerify event model: its aggregates from
/// the domain events, its name from `boundedContext`, its version from
/// `version`, and its entities and value objects from `schemas`. The fields
/// of JSON objects are visited in the order of the hash maps that hold them.
pub fn extract(model: &Object) -> (res: Result<App, ToolError>)
    ensures
        exists|ea: Seq<(Seq<char>, JVal)>, ee: Seq<(Seq<char>, JVal)>, ev: Seq<(Seq<char>, JVal)>|
            is_listing(domain_events(object_fields(*model)), ea)
                && (aggregates_spec(object_fields(*model), ea) is Ok && field_str(object_fields(*model), "boundedContext"@) is Some
                    ==> is_listing(pointed_or_empty(object_fields(*model), entities_pointer()), ee))
                && (aggregates_spec(object_fields(*model), ea) is Ok && field_str(object_fields(*model), "boundedContext"@) is Some
                    && schema_objects_from(ee) is Ok
                    ==> is_listing(pointed_or_empty(object_fields(*model), value_objects_pointer()), ev))
                && result_view(res, |a: App| a@) == extract_spec(object_fields(*model), ea, ee, ev),
{
    let aggregates = get_aggregates(model);
    let ghost ea = choose|es: Seq<(Seq<char>, JVal)>|
        is_listing(domain_events(object_fields(*model)), es)
            && result_view(aggregates, |m: AggregateMap| aggregate_entries(m)) == aggregates_spec(object_fields(*model), es);
    let empty_listing: Ghost<Seq<(Seq<char>, JVal)>> = Ghost(Seq::empty());
    let aggregates = match aggregates {
        Ok(a) => a,
        Err(e) => {
            proof {
                assert(extract_spec(object_fields(*model), ea, empty_listing@, empty_listing@) == Err::<AppV, ToolErrorV>(e@));
            }
            return Err(e);
        },
    };
    let name = match get_string(model, "boundedContext") {
        Some(n) => n,
        None => {
            proof {
                assert(extract_spec(object_fields(*model), ea, empty_listing@, empty_listing@) == Err::<AppV, ToolErrorV>(ToolErrorV::NoBoundedContext));
            }
            return Err(ToolError::NoBoundedContext);
        },
    };
    let entities = get_schema_objects(model, "/schemas/entities");
    let ghost ee = choose|es: Seq<(Seq<char>, JVal)>|
        is_listing(pointed_or_empty(object_fields(*model), "/schemas/entities"@), es)
            && result_view(entities, |m: SchemaMap| schema_entries(m)) == schema_objects_from(es);
    let entities = match entities {
        Ok(e) => e,
        Err(e) => {
            proof {
                assert(extract_spec(object_fields(*model), ea, ee, empty_listing@) == Err::<AppV, ToolErrorV>(e@));
            }
            return Err(e);
        },
    };
    let value_objects = get_schema_objects(model, "/schemas/valueObjects");
    let ghost ev = choose|es: Seq<(Seq<char>, JVal)>|
        is_listing(pointed_or_empty(object_fields(*model), "/schemas/valueObjects"@), es)
            && result_view(value_objects, |m: SchemaMap| schema_entries(m)) == schema_objects_from(es);
    let value_objects = match value_objects {
        Ok(v) => v,
        Err(e) => {
            proof {
                assert(extract_spec(object_fields(*model), ea, ee, ev) == Err::<AppV, ToolErrorV>(e@));
            }
            return Err(e);
        },
    };
    let app = App { name, version: get_version(model), aggregates, entities, value_objects };
    proof {
        assert(extract_spec(object_fields(*model), ea, ee, ev) == Ok::<AppV, ToolErrorV>(app@));
    }
    Ok(app)
}

/// A copy of an optional text.
pub fn copy_opt_text(o: &Option<String>) -> (res: Option<String>)
    ensures
        opt_text(res) == opt_text(*o),
{
    match o {
        Some(s) => Some(s.clone()),
        None => None,
    }
}

/// A copy of a relation.
pub fn copy_related(r: &Option<Related>) -> (res: Option<Related>)
    ensures
        match (res, *r) {
            (Some(a), Some(b)) => a@ == b@,
            (None, None) => true,
            _ => false,
        },
{
    match r {
        Some(Related::Entity(e)) => Some(Related::Entity(e.clone())),
        Some(Related::ValueObject(v)) => Some(Related::ValueObject(v.clone())),
        None => None,
    }
}
/// `al` lists the aggregates of the application and `cls[i]` the commands of
/// the aggregate `al[i]`.
pub open spec fn listings(app: AppV, al: Seq<(Seq<char>, AggregateV)>, cls: Seq<Seq<(Seq<char>, SchemaObjectV)>>) -> bool {
    &&& is_listing(app.aggregates, al)
    &&& cls.len() == al.len()
    &&& forall|i: int| 0 <= i < al.len() ==> is_listing(#[trigger] al[i].1.commands, cls[i])
}

/// The warning about a field of a command that its aggregate lacks.
pub open spec fn field_warning(command: Seq<char>, entity: Seq<char>, field: Seq<char>) -> Seq<char> {
    "The command "@ + command + " of aggregate "@ + entity + " has the field "@ + field + ", which does not exists in the aggregate"@
}

/// The warning about an aggregate whose entity is not defined.
pub open spec fn missing_entity_warning(entity: Seq<char>) -> Seq<char> {
    "The entity for aggregate "@ + entity + " is not defined"@
}

/// The warnings about the fields of a command that the entity lacks.
pub open spec fn field_warnings(entity_fields: Seq<FieldV>, a: AggregateV, c: SchemaObjectV, fields: Seq<FieldV>) -> Seq<Seq<char>>
    decreases fields.len(),
{
    if fields.len() == 0 {
        Seq::empty()
    } else {
        let before = field_warnings(entity_fields, a, c, fields.drop_last());
        if entity_fields.contains(fields.last()) {
            before
        } else {
            before.push(field_warning(c.name, a.entity, fields.last().name))
        }
    }
}

/// The warnings about a command of an aggregate: one per field that the
/// entity of the aggregate lacks, or one about the entity where it is not
/// defined.
pub open spec fn command_warnings(app: AppV, a: AggregateV, c: SchemaObjectV) -> Seq<Seq<char>> {
    if app.entities.contains_key(a.entity) {
        field_warnings(app.entities[a.entity].fields, a, c, c.fields)
    } else {
        seq![missing_entity_warning(a.entity)]
    }
}

/// The warnings about a command's fields: one per field of the command,
/// in order, that no field of the entity equals in every part (name, data
/// type, description, relation and requirement), and none for the others.
pub proof fn law_field_warnings(ef: Seq<FieldV>, a: AggregateV, c: SchemaObjectV, fs: Seq<FieldV>)
    ensures
        field_warnings(ef, a, c, fs) == fs.filter(|f: FieldV| !ef.contains(f)).map_values(
            |f: FieldV| "The command "@ + c.name + " of aggregate "@ + a.entity + " has the field "@ + f.name + ", which does not exists in the aggregate"@,
        ),
    decreases fs.len(),
{
    let pred = |f: FieldV| !ef.contains(f);
    let msg = |f: FieldV| "The command "@ + c.name + " of aggregate "@ + a.entity + " has the field "@ + f.name + ", which does not exists in the aggregate"@;
    reveal(Seq::filter);
    if fs.len() == 0 {
        assert(fs.filter(pred) =~= Seq::<FieldV>::empty());
        assert(fs.filter(pred).map_values(msg) =~= Seq::<Seq<char>>::empty());
    } else {
        law_field_warnings(ef, a, c, fs.drop_last());
        let rest = fs.drop_last().filter(pred);
        if pred(fs.last()) {
            assert(fs.filter(pred) == rest.push(fs.last()));
            assert(rest.push(fs.last()).map_values(msg) =~= rest.map_values(msg).push(msg(fs.last())));
        } else {
            assert(fs.filter(pred) == rest);
        }
    }
}

/// The warnings about a command: those about its fields, as above, where the
/// entity of its aggregate is defined, and otherwise the one warning that the
/// entity is not defined.
pub proof fn law_command_warnings(app: AppV, a: AggregateV, c: SchemaObjectV)
    ensures
        app.entities.contains_key(a.entity) ==> command_warnings(app, a, c) == c.fields.filter(
            |f: FieldV| !app.entities[a.entity].fields.contains(f),
        ).map_values(
            |f: FieldV| "The command "@ + c.name + " of aggregate "@ + a.entity + " has the field "@ + f.name + ", which does not exists in the aggregate"@,
        ),
        !app.entities.contains_key(a.entity) ==> command_warnings(app, a, c) == seq![
            "The entity for aggregate "@ + a.entity + " is not defined"@,
        ],
{
    if app.entities.contains_key(a.entity) {
        law_field_warnings(app.entities[a.entity].fields, a, c, c.fields);
    }
}

/// The warnings about the commands of an aggregate, in a given order.
pub open spec fn aggregate_warnings(app: AppV, a: AggregateV, cl: Seq<(Seq<char>, SchemaObjectV)>) -> Seq<Seq<char>>
    decreases cl.len(),
{
    if cl.len() == 0 {
        Seq::empty()
    } else {
        aggregate_warnings(app, a, cl.drop_last()) + command_warnings(app, a, cl.last().1)
    }
}

/// The warnings about the first `n` aggregates of a listing.
pub open spec fn warnings_upto(
    app: AppV,
    al: Seq<(Seq<char>, AggregateV)>,
    cls: Seq<Seq<(Seq<char>, SchemaObjectV)>>,
    n: nat,
) -> Seq<Seq<char>>
    decreases n,
{
    if n == 0 {
        Seq::empty()
    } else {
        warnings_upto(app, al, cls, (n - 1) as nat) + aggregate_warnings(app, al[n - 1].1, cls[n - 1])
    }
}

/// Whether two optional texts are the same.
fn opt_text_eq(a: &Option<String>, b: &Option<String>) -> (res: bool)
    ensures
        res == (opt_text(*a) == opt_text(*b)),
{
    match (a, b) {
        (Some(x), Some(y)) => text_eq(x.as_str(), y.as_str()),
        (None, None) => true,
        _ => false,
    }
}

/// Whether two optional relations are the same.
fn related_eq(a: &Option<Related>, b: &Option<Related>) -> (res: bool)
    ensures
        res == ((match *a {
            Some(r) => Some(r@),
            None => None,
        }) == (match *b {
            Some(r) => Some(r@),
            None => None::<RelatedV>,
        })),
{
    match (a, b) {
        (Some(Related::Entity(x)), Some(Related::Entity(y))) => text_eq(x.as_str(), y.as_str()),
        (Some(Related::ValueObject(x)), Some(Related::ValueObject(y))) => text_eq(x.as_str(), y.as_str()),
        (None, None) => true,
        _ => false,
    }
}

/// Whether two fields are the same in every part.
fn field_eq(a: &Field, b: &Field) -> (res: bool)
    ensures
        res == (a@ == b@),
{
    text_eq(a.data_type.as_str(), b.data_type.as_str()) && opt_text_eq(&a.description, &b.description)
        && text_eq(a.name.as_str(), b.name.as_str()) && related_eq(&a.related, &b.related) && a.required == b.required
}

/// Whether a list of fields holds a field.
fn has_field(fields: &Vec<Field>, field: &Field) -> (res: bool)
    ensures
        res == crate::collections::field_views(fields@).contains(field@),
{
    let ghost fs = crate::collections::field_views(fields@);
    let mut i: usize = 0;
    while i < fields.len()
        invariant
            i <= fields@.len(),
            fs == crate::collections::field_views(fields@),
            forall|j: int| 0 <= j < i ==> fs[j] != field@,
        decreases fields@.len() - i,
    {
        if field_eq(&fields[i], field) {
            proof {
                assert(fs[i as int] == field@);
            }
            return true;
        }
        i = i + 1;
    }
    false
}

fn verify_fields_command(app: &App, aggregate: &Aggregate, command: &SchemaObject, warnings: &mut Vec<String>)
    ensures
        text_views(final(warnings)@) == text_views(old(warnings)@) + command_warnings(app@, aggregate@, command@),
{
    let ghost start = text_views(warnings@);
    match crate::collections::schema_map_get(&app.entities, &aggregate.entity) {
        Some(e) => {
            let entity_fields = crate::collections::field_list_items(&e.fields);
            let fields = crate::collections::field_list_items(&command.fields);
            let ghost fs = crate::collections::field_views(fields@);
            let mut i: usize = 0;
            proof {
                assert(text_views(warnings@) =~= start + field_warnings(e@.fields, aggregate@, command@, fs.take(0)));
            }
            while i < fields.len()
                invariant
                    i <= fields@.len(),
                    fs == crate::collections::field_views(fields@),
                    crate::collections::field_views(entity_fields@) == e@.fields,
                    text_views(warnings@) == start + field_warnings(e@.fields, aggregate@, command@, fs.take(i as int)),
                decreases fields@.len() - i,
            {
                proof {
                    assert(fs.take(i + 1).drop_last() =~= fs.take(i as int));
                    assert(fs.take(i + 1).last() == fields@[i as int]@);
                }
                let ghost before = warnings@;
                if !has_field(&entity_fields, &fields[i]) {
                    let mut message = String::from_str("The command ");
                    message.append(command.name.as_str());
                    message.append(" of aggregate ");
                    message.append(aggregate.entity.as_str());
                    message.append(" has the field ");
                    message.append(fields[i].name.as_str());
                    message.append(", which does not exists in the aggregate");
                    warnings.push(message);
                    proof {
                        assert(message@ == field_warning(command@.name, aggregate@.entity, fields@[i as int]@.name));
                        assert(text_views(warnings@) =~= text_views(before).push(message@));
                    }
                }
                proof {
                    assert(text_views(warnings@) =~= start + field_warnings(e@.fields, aggregate@, command@, fs.take(i + 1)));
                }
                i = i + 1;
            }
            proof {
                assert(fs.take(fields@.len() as int) =~= fs);
            }
        },
        None => {
            let mut message = String::from_str("The entity for aggregate ");
            message.append(aggregate.entity.as_str());
            message.append(" is not defined");
            warnings.push(message);
            proof {
                assert(text_views(warnings@) =~= start + seq![missing_entity_warning(aggregate@.entity)]);
            }
        },
    }
}

fn verify_fields_aggregate(app: &App, aggregate: &Aggregate, warnings: &mut Vec<String>)
    ensures
        exists|cl: Seq<(Seq<char>, SchemaObjectV)>|
            is_listing(aggregate@.commands, cl)
                && text_views(final(warnings)@) == text_views(old(warnings)@) + aggregate_warnings(app@, aggregate@, cl),
{
    let ghost start = text_views(warnings@);
    let commands = crate::collections::schema_map_entries(&aggregate.commands);
    let ghost cl = crate::collections::schema_entry_views(commands@);
    let mut i: usize = 0;
    proof {
        assert(text_views(warnings@) =~= start + aggregate_warnings(app@, aggregate@, cl.take(0)));
    }
    while i < commands.len()
        invariant
            i <= commands@.len(),
            cl == crate::collections::schema_entry_views(commands@),
            text_views(warnings@) == start + aggregate_warnings(app@, aggregate@, cl.take(i as int)),
        decreases commands@.len() - i,
    {
        proof {
            assert(cl.take(i + 1).drop_last() =~= cl.take(i as int));
        }
        verify_fields_command(app, aggregate, &commands[i].1, warnings);
        proof {
            assert(text_views(warnings@) =~= start + aggregate_warnings(app@, aggregate@, cl.take(i + 1)));
        }
        i = i + 1;
    }
    proof {
        assert(cl.take(commands@.len() as int) =~= cl);
        assert(is_listing(aggregate@.commands, cl));
    }
}

proof fn lemma_warnings_prefix(
    app: AppV,
    al: Seq<(Seq<char>, AggregateV)>,
    cls1: Seq<Seq<(Seq<char>, SchemaObjectV)>>,
    cls2: Seq<Seq<(Seq<char>, SchemaObjectV)>>,
    n: nat,
)
    requires
        n <= cls1.len(),
        n <= cls2.len(),
        forall|j: int| 0 <= j < n ==> cls1[j] == cls2[j],
    ensures
        warnings_upto(app, al, cls1, n) == warnings_upto(app, al, cls2, n),
    decreases n,
{
    if n > 0 {
        lemma_warnings_prefix(app, al, cls1, cls2, (n - 1) as nat);
    }
}

/// The warnings about the commands whose fields the entities of their
/// aggregates lack, and about the aggregates whose entities are not defined.
/// The aggregates and their commands are taken in the order of the hash maps
/// that hold them.
pub fn verify_fields(app: &App) -> (res: Vec<String>)
    ensures
        exists|al: Seq<(Seq<char>, AggregateV)>, cls: Seq<Seq<(Seq<char>, SchemaObjectV)>>|
            listings(app@, al, cls) && text_views(res@) == warnings_upto(app@, al, cls, al.len()),
{
    let entries = crate::collections::aggregate_map_entries(&app.aggregates);
    let ghost al = crate::collections::aggregate_entry_views(entries@);
    let ghost mut cls: Seq<Seq<(Seq<char>, SchemaObjectV)>> = Seq::empty();
    let mut warnings: Vec<String> = Vec::new();
    proof {
        assert(text_views(warnings@) =~= Seq::<Seq<char>>::empty());
    }
    let mut i: usize = 0;
    while i < entries.len()
        invariant
            i <= entries@.len(),
            al == crate::collections::aggregate_entry_views(entries@),
            is_listing(app@.aggregates, al),
            cls.len() == i,
            forall|j: int| 0 <= j < i ==> is_listing(#[trigger] al[j].1.commands, cls[j]),
            text_views(warnings@) == warnings_upto(app@, al, cls, i as nat),
        decreases entries@.len() - i,
    {
        let ghost before = text_views(warnings@);
        let aggregate = &entries[i].1;
        verify_fields_aggregate(app, aggregate, &mut warnings);
        proof {
            let cl = choose|cl: Seq<(Seq<char>, SchemaObjectV)>|
                is_listing(aggregate@.commands, cl) && text_views(warnings@) == before + aggregate_warnings(app@, aggregate@, cl);
            let new_cls = cls.push(cl);
            assert(al[i as int].1 == aggregate@);
            lemma_warnings_prefix(app@, al, cls, new_cls, i as nat);
            cls = new_cls;
        }
        i = i + 1;
    }
    proof {
        assert(listings(app@, al, cls));
    }
    warnings
}

proof fn lemma_seq_contains_append(a: Seq<Seq<char>>, b: Seq<Seq<char>>, w: Seq<char>)
    ensures
        a.contains(w) ==> (a + b).contains(w),
        b.contains(w) ==> (a + b).contains(w),
{
    if a.contains(w) {
        let i = choose|i: int| 0 <= i < a.len() && a[i] == w;
        assert((a + b)[i] == w);
    }
    if b.contains(w) {
        let i = choose|i: int| 0 <= i < b.len() && b[i] == w;
        assert((a + b)[a.len() + i] == w);
    }
}

proof fn lemma_aggregate_warnings_cover(app: AppV, a: AggregateV, cl: Seq<(Seq<char>, SchemaObjectV)>)
    ensures
        forall|i: int, w: Seq<char>| 0 <= i < cl.len() && #[trigger] command_warnings(app, a, cl[i].1).contains(w)
            ==> #[trigger] aggregate_warnings(app, a, cl).contains(w),
    decreases cl.len(),
{
    if cl.len() > 0 {
        let d = cl.drop_last();
        lemma_aggregate_warnings_cover(app, a, d);
        assert forall|i: int, w: Seq<char>| 0 <= i < cl.len() && #[trigger] command_warnings(app, a, cl[i].1).contains(w)
            implies #[trigger] aggregate_warnings(app, a, cl).contains(w) by {
            lemma_seq_contains_append(aggregate_warnings(app, a, d), command_warnings(app, a, cl.last().1), w);
            if i < d.len() {
                assert(d[i] == cl[i]);
                assert(command_warnings(app, a, d[i].1).contains(w));
            }
        }
    }
}

proof fn lemma_warnings_upto_cover(
    app: AppV,
    al: Seq<(Seq<char>, AggregateV)>,
    cls: Seq<Seq<(Seq<char>, SchemaObjectV)>>,
    n: nat,
)
    ensures
        forall|j: int, i: int, w: Seq<char>| 0 <= j < n && 0 <= i < cls[j].len()
            && #[trigger] command_warnings(app, al[j].1, cls[j][i].1).contains(w)
            ==> #[trigger] warnings_upto(app, al, cls, n).contains(w),
    decreases n,
{
    if n > 0 {
        lemma_warnings_upto_cover(app, al, cls, (n - 1) as nat);
        lemma_aggregate_warnings_cover(app, al[n - 1].1, cls[n - 1]);
        assert forall|j: int, i: int, w: Seq<char>| 0 <= j < n && 0 <= i < cls[j].len()
            && #[trigger] command_warnings(app, al[j].1, cls[j][i].1).contains(w)
            implies #[trigger] warnings_upto(app, al, cls, n).contains(w) by {
            let prev = warnings_upto(app, al, cls, (n - 1) as nat);
            let last = aggregate_warnings(app, al[n - 1].1, cls[n - 1]);
            lemma_seq_contains_append(prev, last, w);
            if j < n - 1 {
                assert(prev.contains(w));
            } else {
                assert(last.contains(w));
            }
        }
    }
}

/// Every warning about every command of every aggregate of the application
/// is among those that `verify_fields` gives, whatever the order in which the
/// aggregates and their commands are visited.
pub proof fn law_warnings_cover(
    app: AppV,
    al: Seq<(Seq<char>, AggregateV)>,
    cls: Seq<Seq<(Seq<char>, SchemaObjectV)>>,
)
    requires
        listings(app, al, cls),
    ensures
        forall|e: Seq<char>, k: Seq<char>, w: Seq<char>|
            #![trigger app.aggregates[e].commands.contains_key(k), command_warnings(app, app.aggregates[e], app.aggregates[e].commands[k]).contains(w)]
            app.aggregates.contains_key(e) && app.aggregates[e].commands.contains_key(k)
                && command_warnings(app, app.aggregates[e], app.aggregates[e].commands[k]).contains(w)
                ==> warnings_upto(app, al, cls, al.len()).contains(w),
{
    lemma_warnings_upto_cover(app, al, cls, al.len());
    assert forall|e: Seq<char>, k: Seq<char>, w: Seq<char>|
        #![trigger app.aggregates[e].commands.contains_key(k), command_warnings(app, app.aggregates[e], app.aggregates[e].commands[k]).contains(w)]
        app.aggregates.contains_key(e) && app.aggregates[e].commands.contains_key(k)
            && command_warnings(app, app.aggregates[e], app.aggregates[e].commands[k]).contains(w)
            implies warnings_upto(app, al, cls, al.len()).contains(w) by {
        let j = choose|j: int| 0 <= j < al.len() && al[j].0 == e;
        lemma_listing_entry(app.aggregates, al, j);
        assert(is_listing(al[j].1.commands, cls[j]));
        let i = choose|i: int| 0 <= i < cls[j].len() && cls[j][i].0 == k;
        lemma_listing_entry(al[j].1.commands, cls[j], i);
        assert(command_warnings(app, al[j].1, cls[j][i].1).contains(w));
    }
}

/// Every schema object of a map is under its own name.
pub open spec fn keyed_by_name(m: Map<Seq<char>, SchemaObjectV>) -> bool {
    forall|k: Seq<char>| #[trigger] m.contains_key(k) ==> m[k].name == k
}

/// Every aggregate of a map is under its entity, and its commands are under
/// their names.
pub open spec fn aggregates_keyed(m: Map<Seq<char>, AggregateV>) -> bool {
    forall|k: Seq<char>| #[trigger] m.contains_key(k) ==> m[k].entity == k && keyed_by_name(m[k].commands)
}

/// An application whose parts are each under their own name.
pub open spec fn app_keyed(app: AppV) -> bool {
    &&& aggregates_keyed(app.aggregates)
    &&& keyed_by_name(app.entities)
    &&& keyed_by_name(app.value_objects)
}

proof fn lemma_schema_objects_keyed(es: Seq<(Seq<char>, JVal)>)
    ensures
        schema_objects_from(es) matches Ok(m) ==> keyed_by_name(m),
    decreases es.len(),
{
    if es.len() > 0 {
        lemma_schema_objects_keyed(es.drop_last());
    }
}

proof fn lemma_aggregates_keyed(model: JFields, es: Seq<(Seq<char>, JVal)>)
    ensures
        aggregates_from(model, es) matches Ok(m) ==> aggregates_keyed(m),
    decreases es.len(),
{
    if es.len() > 0 {
        lemma_aggregates_keyed(model, es.drop_last());
        if let Ok(m) = aggregates_from(model, es.drop_last()) {
            if let JVal::Obj(event) = es.last().1 {
                if let Some(reference) = pointer_str(event, "/aggregateRoot/$ref"@) {
                    if let Ok(a) = aggregate_spec(event, reference, model) {
                        let r = add_aggregate(m, a);
                        assert forall|k: Seq<char>| #[trigger] r.contains_key(k) implies r[k].entity == k && keyed_by_name(r[k].commands) by {
                            if k == a.entity {
                                if m.contains_key(k) {
                                    assert(keyed_by_name(m[k].commands));
                                    assert(keyed_by_name(a.commands));
                                    let u = m[k].commands.union_prefer_right(a.commands);
                                    assert forall|c: Seq<char>| #[trigger] u.contains_key(c) implies u[c].name == c by {
                                        if a.commands.contains_key(c) {
                                        } else {
                                            assert(m[k].commands.contains_key(c));
                                        }
                                    }
                                }
                            } else {
                                assert(m.contains_key(k));
                            }
                        }
                    }
                }
            }
        }
    }
}

/// The application that a model gives holds every aggregate under its
/// entity, every command of an aggregate under its name, and every entity
/// and value object under its name, whatever the order in which the fields
/// of the model are visited.
pub proof fn law_extract_keyed(
    model: JFields,
    ea: Seq<(Seq<char>, JVal)>,
    ee: Seq<(Seq<char>, JVal)>,
    ev: Seq<(Seq<char>, JVal)>,
)
    ensures
        extract_spec(model, ea, ee, ev) matches Ok(app) ==> app_keyed(app),
{
    lemma_aggregates_keyed(model, ea);
    lemma_schema_objects_keyed(ee);
    lemma_schema_objects_keyed(ev);
}

/// Every aggregate of a map has at least one command.
pub open spec fn aggregates_have_commands(m: Map<Seq<char>, AggregateV>) -> bool {
    forall|k: Seq<char>| #[trigger] m.contains_key(k) ==> m[k].commands.dom().len() > 0 && m[k].commands.dom().finite()
}

proof fn lemma_aggregates_have_commands(model: JFields, es: Seq<(Seq<char>, JVal)>)
    ensures
        aggregates_from(model, es) matches Ok(m) ==> aggregates_have_commands(m),
    decreases es.len(),
{
    if es.len() > 0 {
        lemma_aggregates_have_commands(model, es.drop_last());
        if let Ok(m) = aggregates_from(model, es.drop_last()) {
            if let JVal::Obj(event) = es.last().1 {
                if let Some(reference) = pointer_str(event, "/aggregateRoot/$ref"@) {
                    if let Ok(a) = aggregate_spec(event, reference, model) {
                        let c = command_spec(event, model)->Ok_0;
                        assert(a.commands == Map::<Seq<char>, SchemaObjectV>::empty().insert(c.name, c));
                        assert(a.commands.dom() =~= Set::<Seq<char>>::empty().insert(c.name));
                        let r = add_aggregate(m, a);
                        assert forall|k: Seq<char>| #[trigger] r.contains_key(k) implies r[k].commands.dom().len() > 0
                            && r[k].commands.dom().finite() by {
                            if k == a.entity {
                                if m.contains_key(k) {
                                    let u = m[k].commands.union_prefer_right(a.commands);
                                    assert(u.dom() =~= m[k].commands.dom().union(a.commands.dom()));
                                    assert(u.dom().contains(c.name));
                                }
                            } else {
                                assert(m.contains_key(k));
                            }
                        }
                    }
                }
            }
        }
    }
}

/// Every aggregate of the application that a model gives has at least one
/// command, and finitely many, whatever the order in which the domain events
/// are visited.
pub proof fn law_aggregates_have_commands(
    model: JFields,
    ea: Seq<(Seq<char>, JVal)>,
    ee: Seq<(Seq<char>, JVal)>,
    ev: Seq<(Seq<char>, JVal)>,
)
    ensures
        extract_spec(model, ea, ee, ev) matches Ok(app) ==> aggregates_have_commands(app.aggregates),
{
    lemma_aggregates_have_commands(model, ea);
}

/// The last segment of a reference is that of the JSON pointer in it.
pub proof fn law_pointer_keeps_name(reference: Seq<char>)
    ensures
        pointer_spec(reference) matches Some(p) ==> name_spec(p) == name_spec(reference),
{
    if reference.len() >= 2 && reference[0] == '#' && reference[1] == '/' {
        lemma_split_last_suffix(reference, 1);
    }
}

/// The last piece of a text is that of any suffix that starts at a
/// separator.
proof fn lemma_split_last_suffix(s: Seq<char>, k: int)
    requires
        0 <= k < s.len(),
        s[k] == '/',
    ensures
        split_spec(s, '/').last() == split_spec(s.skip(k), '/').last(),
    decreases s.len(),
{
    let t = s.skip(k);
    if s.last() == '/' {
        assert(t.last() == '/');
    } else {
        assert(k < s.len() - 1);
        assert(t.drop_last() =~= s.drop_last().skip(k));
        lemma_split_last_suffix(s.drop_last(), k);
        lemma_split_nonempty(s.drop_last(), '/');
        lemma_split_nonempty(t.drop_last(), '/');
        assert(t.last() == s.last());
    }
}

/// A reference made of a kind and a name, neither of which holds a slash,
/// splits back into them.
pub proof fn law_schema_ref_round_trip(kind: Seq<char>, name: Seq<char>)
    requires
        !kind.contains('/'),
        !name.contains('/'),
    ensures
        schema_ref_spec("#/schemas/"@ + kind + "/"@ + name) == Some((kind, name)),
{
    reveal_strlit("#/schemas/");
    reveal_strlit("/");
    reveal_strlit("#");
    reveal_strlit("schemas");
    let hash = "#"@;
    let schemas = "schemas"@;
    assert(!hash.contains('/')) by {
        if hash.contains('/') {
            let i = choose|i: int| 0 <= i < hash.len() && hash[i] == '/';
        }
    }
    assert(!schemas.contains('/')) by {
        if schemas.contains('/') {
            let i = choose|i: int| 0 <= i < schemas.len() && schemas[i] == '/';
        }
    }
    let x2 = hash.push('/') + schemas;
    let x3 = x2.push('/') + kind;
    let x4 = x3.push('/') + name;
    assert(x4 =~= "#/schemas/"@ + kind + "/"@ + name);
    lemma_split_single(hash, '/');
    lemma_split_single(schemas, '/');
    lemma_split_single(kind, '/');
    lemma_split_single(name, '/');
    lemma_split_join(hash, schemas, '/');
    lemma_split_join(x2, kind, '/');
    lemma_split_join(x3, name, '/');
    assert(split_spec(x4, '/') =~= seq![hash, schemas, kind, name]);
}

/// A field that refers to something is an array or an object.
pub proof fn law_related_fields_are_structures(field: JFields)
    ensures
        type_info_spec(field).1 is Some ==> type_info_spec(field).0 == "array"@ || type_info_spec(field).0 == "object"@,
{
}

/// A field is required exactly where its name is among those that its
/// schema requires.
pub proof fn law_required_fields(items: Seq<JVal>, required: Seq<Seq<char>>)
    ensures
        fields_from(items, required) matches Ok(fs) ==> forall|i: int| 0 <= i < fs.len() ==> (#[trigger] fs[i]).required == required.contains(fs[i].name),
    decreases items.len(),
{
    if items.len() > 0 {
        law_required_fields(items.drop_last(), required);
        if let Ok(fs) = fields_from(items, required) {
            if let Ok(before) = fields_from(items.drop_last(), required) {
                assert forall|i: int| 0 <= i < fs.len() implies (#[trigger] fs[i]).required == required.contains(fs[i].name) by {
                    if i < before.len() {
                        assert(fs[i] == before[i]);
                    }
                }
            }
        }
    }
}

/// Merging aggregates keeps the entity of the older one and every command
/// of both, those of the newer one winning; merging in steps gives what
/// merging at once does.
pub proof fn law_merge_aggregates(a: AggregateV, b: AggregateV, c: AggregateV)
    ensures
        merged(a, b).entity == a.entity,
        merged(a, b).commands.dom() == a.commands.dom().union(b.commands.dom()),
        forall|k: Seq<char>| #[trigger] b.commands.contains_key(k) ==> merged(a, b).commands[k] == b.commands[k],
        merged(merged(a, b), c) == merged(a, merged(b, c)),
{
    assert(merged(a, b).commands.dom() =~= a.commands.dom().union(b.commands.dom()));
    assert(merged(merged(a, b), c).commands =~= merged(a, merged(b, c)).commands);
}

/// The map that a sequence of entries with distinct keys describes.
pub open spec fn entries_map<V>(es: Seq<(Seq<char>, V)>) -> Map<Seq<char>, V>
    decreases es.len(),
{
    if es.len() == 0 {
        Map::empty()
    } else {
        entries_map(es.drop_last()).insert(es.last().0, es.last().1)
    }
}

proof fn lemma_entries_map_listing<V>(es: Seq<(Seq<char>, V)>)
    requires
        forall|i: int, j: int| 0 <= i < j < es.len() ==> #[trigger] es[i].0 != #[trigger] es[j].0,
    ensures
        is_listing(entries_map(es), es),
    decreases es.len(),
{
    if es.len() > 0 {
        let d = es.drop_last();
        assert forall|i: int, j: int| 0 <= i < j < d.len() implies #[trigger] d[i].0 != #[trigger] d[j].0 by {
            assert(d[i] == es[i] && d[j] == es[j]);
        }
        lemma_entries_map_listing(d);
        let m = entries_map(es);
        assert forall|i: int| 0 <= i < es.len() implies #[trigger] m.contains_key(es[i].0) && m[es[i].0] == es[i].1 by {
            if i < es.len() - 1 {
                assert(d[i] == es[i]);
                assert(es[i].0 != es[es.len() - 1].0);
            }
        }
        assert forall|k: Seq<char>| #[trigger] m.contains_key(k) implies exists|i: int| 0 <= i < es.len() && es[i].0 == k by {
            if k != es.last().0 {
                assert(entries_map(d).contains_key(k));
                let i = choose|i: int| 0 <= i < d.len() && d[i].0 == k;
                assert(es[i] == d[i]);
            } else {
                assert(es[es.len() - 1].0 == k);
            }
        }
    }
}

/// Two maps with the same listing are the same.
proof fn lemma_listing_determines<V>(m1: Map<Seq<char>, V>, m2: Map<Seq<char>, V>, es: Seq<(Seq<char>, V)>)
    requires
        is_listing(m1, es),
        is_listing(m2, es),
    ensures
        m1 == m2,
{
    assert forall|k: Seq<char>| m1.contains_key(k) <==> m2.contains_key(k) by {
        if m1.contains_key(k) {
            let i = choose|i: int| 0 <= i < es.len() && es[i].0 == k;
            assert(m2.contains_key(es[i].0));
        }
        if m2.contains_key(k) {
            let i = choose|i: int| 0 <= i < es.len() && es[i].0 == k;
            assert(m1.contains_key(es[i].0));
        }
    }
    assert forall|k: Seq<char>| m1.contains_key(k) implies m1[k] == m2[k] by {
        let i = choose|i: int| 0 <= i < es.len() && es[i].0 == k;
        assert(m1.contains_key(es[i].0) && m2.contains_key(es[i].0));
    }
    assert(m1 =~= m2);
}

/// The schema objects that the fields of an object describe, as a map: the
/// error `FieldNoName` where one of them has a field without a name.
pub open spec fn schema_objects_of(m: JFields) -> Result<Map<Seq<char>, SchemaObjectV>, ToolErrorV> {
    if exists|k: Seq<char>| #[trigger] m.contains_key(k) && m[k] is Obj && schema_object_spec(k, m[k]->Obj_0) is Err {
        Err(ToolErrorV::FieldNoName)
    } else {
        Ok(Map::new(
            |k: Seq<char>| m.contains_key(k) && m[k] is Obj,
            |k: Seq<char>| schema_object_spec(k, m[k]->Obj_0)->Ok_0,
        ))
    }
}

proof fn lemma_fields_from_error(items: Seq<JVal>, required: Seq<Seq<char>>)
    ensures
        fields_from(items, required) is Err ==> fields_from(items, required) == Err::<Seq<FieldV>, ToolErrorV>(ToolErrorV::FieldNoName),
    decreases items.len(),
{
    if items.len() > 0 {
        lemma_fields_from_error(items.drop_last(), required);
    }
}

proof fn lemma_schema_object_error(name: Seq<char>, object: JFields)
    ensures
        schema_object_spec(name, object) is Err ==> schema_object_spec(name, object) == Err::<SchemaObjectV, ToolErrorV>(ToolErrorV::FieldNoName),
{
    if let Some(a) = field_arr(object, "fields"@) {
        lemma_fields_from_error(a, required_spec(object));
    }
}

proof fn lemma_schema_objects_entries(es: Seq<(Seq<char>, JVal)>)
    requires
        forall|i: int, j: int| 0 <= i < j < es.len() ==> #[trigger] es[i].0 != #[trigger] es[j].0,
    ensures
        schema_objects_from(es) == schema_objects_of(entries_map(es)),
    decreases es.len(),
{
    if es.len() == 0 {
        let m = entries_map(es);
        assert(Map::new(
            |k: Seq<char>| m.contains_key(k) && m[k] is Obj,
            |k: Seq<char>| schema_object_spec(k, m[k]->Obj_0)->Ok_0,
        ) =~= Map::<Seq<char>, SchemaObjectV>::empty());
    } else {
        let d = es.drop_last();
        assert forall|i: int, j: int| 0 <= i < j < d.len() implies #[trigger] d[i].0 != #[trigger] d[j].0 by {
            assert(d[i] == es[i] && d[j] == es[j]);
        }
        lemma_schema_objects_entries(d);
        lemma_entries_map_listing(d);
        let (k, v) = es.last();
        let md = entries_map(d);
        let m = entries_map(es);
        assert(!md.contains_key(k)) by {
            if md.contains_key(k) {
                let i = choose|i: int| 0 <= i < d.len() && d[i].0 == k;
                assert(es[i] == d[i]);
            }
        }
        let bad_d = exists|x: Seq<char>| #[trigger] md.contains_key(x) && md[x] is Obj && schema_object_spec(x, md[x]->Obj_0) is Err;
        if bad_d {
            let x = choose|x: Seq<char>| #[trigger] md.contains_key(x) && md[x] is Obj && schema_object_spec(x, md[x]->Obj_0) is Err;
            assert(m.contains_key(x) && m[x] == md[x]);
        } else {
            if let JVal::Obj(o) = v {
                lemma_schema_object_error(k, o);
                if schema_object_spec(k, o) is Err {
                    assert(m.contains_key(k) && m[k] is Obj && schema_object_spec(k, m[k]->Obj_0) is Err);
                } else {
                    assert forall|x: Seq<char>| !(#[trigger] m.contains_key(x) && m[x] is Obj && schema_object_spec(x, m[x]->Obj_0) is Err) by {
                        if x != k && m.contains_key(x) {
                            assert(md.contains_key(x) && md[x] == m[x]);
                        }
                    }
                    let prev = Map::new(
                        |x: Seq<char>| md.contains_key(x) && md[x] is Obj,
                        |x: Seq<char>| schema_object_spec(x, md[x]->Obj_0)->Ok_0,
                    );
                    let so = schema_object_spec(k, o)->Ok_0;
                    assert(so.name == k);
                    assert(prev.insert(so.name, so) =~= Map::new(
                        |x: Seq<char>| m.contains_key(x) && m[x] is Obj,
                        |x: Seq<char>| schema_object_spec(x, m[x]->Obj_0)->Ok_0,
                    ));
                }
            } else {
                assert forall|x: Seq<char>| !(#[trigger] m.contains_key(x) && m[x] is Obj && schema_object_spec(x, m[x]->Obj_0) is Err) by {
                    if x != k && m.contains_key(x) {
                        assert(md.contains_key(x) && md[x] == m[x]);
                    }
                }
                let prev = Map::new(
                    |x: Seq<char>| md.contains_key(x) && md[x] is Obj,
                    |x: Seq<char>| schema_object_spec(x, md[x]->Obj_0)->Ok_0,
                );
                assert(prev =~= Map::new(
                    |x: Seq<char>| m.contains_key(x) && m[x] is Obj,
                    |x: Seq<char>| schema_object_spec(x, m[x]->Obj_0)->Ok_0,
                ));
            }
        }
    }
}

/// The schema objects of a model do not depend on the order in which the
/// hash map that holds them is visited: every listing gives the same map,
/// or the same error.
pub proof fn law_schema_objects_order(m: JFields, es: Seq<(Seq<char>, JVal)>)
    requires
        is_listing(m, es),
    ensures
        schema_objects_from(es) == schema_objects_of(m),
{
    lemma_entries_map_listing(es);
    lemma_listing_determines(m, entries_map(es), es);
    lemma_schema_objects_entries(es);
}

/// What a domain event contributes: nothing where it is no object or has no
/// `aggregateRoot/$ref`, otherwise its aggregate or the error of building it.
pub open spec fn event_aggregate(model: JFields, v: JVal) -> Option<Result<AggregateV, ToolErrorV>> {
    match v {
        JVal::Obj(event) => match pointer_str(event, "/aggregateRoot/$ref"@) {
            Some(reference) => Some(aggregate_spec(event, reference, model)),
            None => None,
        },
        _ => None,
    }
}

/// The domain event under `k` contributes an aggregate without error.
pub open spec fn contributes(model: JFields, events: JFields, k: Seq<char>) -> bool {
    events.contains_key(k) && event_aggregate(model, events[k]) matches Some(Ok(_))
}

/// The aggregate that the domain event under `k` contributes.
pub open spec fn contribution(model: JFields, events: JFields, k: Seq<char>) -> AggregateV {
    event_aggregate(model, events[k])->Some_0->Ok_0
}

/// The domain event under `k` gives the aggregate of entity `e` the command
/// named `c`.
pub open spec fn gives_command(model: JFields, events: JFields, e: Seq<char>, c: Seq<char>, k: Seq<char>) -> bool {
    &&& contributes(model, events, k)
    &&& contribution(model, events, k).entity == e
    &&& contribution(model, events, k).commands.contains_key(c)
}

/// No domain event fails to give its aggregate.
pub open spec fn no_event_errors(model: JFields, events: JFields) -> bool {
    forall|k: Seq<char>| #[trigger] events.contains_key(k) ==> !(event_aggregate(model, events[k]) matches Some(Err(_)))
}

/// Domain events that give a command of the same name to the same aggregate
/// give the same command.
pub open spec fn events_agree(model: JFields, events: JFields) -> bool {
    forall|e: Seq<char>, c: Seq<char>, k1: Seq<char>, k2: Seq<char>|
        #[trigger] gives_command(model, events, e, c, k1) && #[trigger] gives_command(model, events, e, c, k2)
            ==> contribution(model, events, k1).commands[c] == contribution(model, events, k2).commands[c]
}

/// The aggregates of some domain events, by entity: each holds every command
/// that an event gives it.
pub open spec fn aggregates_of(model: JFields, events: JFields) -> Map<Seq<char>, AggregateV> {
    Map::new(
        |e: Seq<char>| exists|k: Seq<char>| contributes(model, events, k) && #[trigger] contribution(model, events, k).entity == e,
        |e: Seq<char>| AggregateV {
            commands: Map::new(
                |c: Seq<char>| exists|k: Seq<char>| #[trigger] gives_command(model, events, e, c, k),
                |c: Seq<char>| contribution(model, events, choose|k: Seq<char>| gives_command(model, events, e, c, k)).commands[c],
            ),
            entity: e,
        },
    )
}

/// Where an event that contributes nothing is added, the aggregates stay.
proof fn lemma_aggregates_of_same(model: JFields, md: JFields, m: JFields, k: Seq<char>)
    requires
        !md.contains_key(k),
        m.contains_key(k),
        !contributes(model, m, k),
        forall|x: Seq<char>| x != k ==> (#[trigger] m.contains_key(x) <==> md.contains_key(x)),
        forall|x: Seq<char>| x != k && md.contains_key(x) ==> #[trigger] m[x] == md[x],
        events_agree(model, m),
    ensures
        aggregates_of(model, md) == aggregates_of(model, m),
{
    let a = aggregates_of(model, md);
    let b = aggregates_of(model, m);
    assert forall|x: Seq<char>| #[trigger] contributes(model, m, x) <==> contributes(model, md, x) by {
        if x != k && md.contains_key(x) {
            assert(m[x] == md[x]);
        }
    }
    assert forall|x: Seq<char>| contributes(model, md, x) implies #[trigger] contribution(model, m, x) == contribution(model, md, x) by {
        assert(x != k);
        assert(m[x] == md[x]);
    }
    assert forall|e: Seq<char>, c: Seq<char>, x: Seq<char>| #[trigger] gives_command(model, m, e, c, x) <==> gives_command(model, md, e, c, x) by {
        if contributes(model, md, x) {
            assert(contribution(model, m, x) == contribution(model, md, x));
        }
        assert(contributes(model, m, x) <==> contributes(model, md, x));
    }
    assert forall|e: Seq<char>| #[trigger] a.contains_key(e) <==> b.contains_key(e) by {
        if a.contains_key(e) {
            let x = choose|x: Seq<char>| contributes(model, md, x) && #[trigger] contribution(model, md, x).entity == e;
            assert(contributes(model, m, x) && contribution(model, m, x).entity == e);
        }
        if b.contains_key(e) {
            let x = choose|x: Seq<char>| contributes(model, m, x) && #[trigger] contribution(model, m, x).entity == e;
            assert(contributes(model, md, x) && contribution(model, md, x).entity == e);
        }
    }
    assert forall|e: Seq<char>| a.contains_key(e) implies #[trigger] a[e] == b[e] by {
        let ca = a[e].commands;
        let cb = b[e].commands;
        assert forall|c: Seq<char>| #[trigger] ca.contains_key(c) <==> cb.contains_key(c) by {
            if ca.contains_key(c) {
                let x = choose|x: Seq<char>| #[trigger] gives_command(model, md, e, c, x);
                assert(gives_command(model, m, e, c, x));
            }
            if cb.contains_key(c) {
                let x = choose|x: Seq<char>| #[trigger] gives_command(model, m, e, c, x);
                assert(gives_command(model, md, e, c, x));
            }
        }
        assert forall|c: Seq<char>| ca.contains_key(c) implies #[trigger] ca[c] == cb[c] by {
            let x1 = choose|x: Seq<char>| gives_command(model, md, e, c, x);
            let x2 = choose|x: Seq<char>| gives_command(model, m, e, c, x);
            assert(gives_command(model, md, e, c, x1));
            assert(cb.contains_key(c));
            assert(gives_command(model, m, e, c, x2));
            assert(gives_command(model, m, e, c, x1));
            assert(contribution(model, m, x1) == contribution(model, md, x1));
        }
        assert(ca =~= cb);
    }
    assert(a =~= b);
}

/// Where an event that contributes an aggregate is added, the aggregate is
/// added to those of its entity.
proof fn lemma_aggregates_of_add(model: JFields, md: JFields, m: JFields, k: Seq<char>)
    requires
        !md.contains_key(k),
        contributes(model, m, k),
        forall|x: Seq<char>| x != k ==> (#[trigger] m.contains_key(x) <==> md.contains_key(x)),
        forall|x: Seq<char>| x != k && md.contains_key(x) ==> #[trigger] m[x] == md[x],
        events_agree(model, m),
    ensures
        add_aggregate(aggregates_of(model, md), contribution(model, m, k)) == aggregates_of(model, m),
{
    let a = aggregates_of(model, md);
    let b = aggregates_of(model, m);
    let n = contribution(model, m, k);
    let r = add_aggregate(a, n);
    assert forall|x: Seq<char>| x != k implies (#[trigger] contributes(model, m, x) <==> contributes(model, md, x)) by {
        if md.contains_key(x) {
            assert(m[x] == md[x]);
        }
    }
    assert forall|x: Seq<char>| contributes(model, md, x) implies #[trigger] contribution(model, m, x) == contribution(model, md, x) by {
        assert(x != k);
        assert(m[x] == md[x]);
    }
    assert forall|e: Seq<char>, c: Seq<char>, x: Seq<char>| x != k implies (#[trigger] gives_command(model, m, e, c, x) <==> gives_command(model, md, e, c, x)) by {
        if contributes(model, md, x) {
            assert(contribution(model, m, x) == contribution(model, md, x));
        }
        assert(contributes(model, m, x) <==> contributes(model, md, x));
    }
    assert(!contributes(model, md, k));
    assert forall|e: Seq<char>| #[trigger] r.contains_key(e) <==> b.contains_key(e) by {
        if a.contains_key(e) {
            let x = choose|x: Seq<char>| contributes(model, md, x) && #[trigger] contribution(model, md, x).entity == e;
            assert(contributes(model, m, x) && contribution(model, m, x).entity == e);
        }
        if e == n.entity {
            assert(contributes(model, m, k) && contribution(model, m, k).entity == e);
        }
        if b.contains_key(e) {
            let x = choose|x: Seq<char>| contributes(model, m, x) && #[trigger] contribution(model, m, x).entity == e;
            if x != k {
                assert(contributes(model, md, x) && contribution(model, md, x).entity == e);
            }
        }
    }
    assert forall|e: Seq<char>| r.contains_key(e) implies #[trigger] r[e] == b[e] by {
        let cb = b[e].commands;
        let cr = r[e].commands;
        assert(b.contains_key(e));
        if e == n.entity {
            assert forall|c: Seq<char>| #[trigger] cr.contains_key(c) <==> cb.contains_key(c) by {
                if n.commands.contains_key(c) {
                    assert(gives_command(model, m, e, c, k));
                }
                if a.contains_key(e) && a[e].commands.contains_key(c) {
                    let x = choose|x: Seq<char>| #[trigger] gives_command(model, md, e, c, x);
                    assert(gives_command(model, m, e, c, x));
                }
                if cb.contains_key(c) {
                    let x = choose|x: Seq<char>| #[trigger] gives_command(model, m, e, c, x);
                    if x != k {
                        assert(gives_command(model, md, e, c, x));
                        assert(a.contains_key(e)) by {
                            assert(contributes(model, md, x) && contribution(model, md, x).entity == e);
                        }
                    }
                }
            }
            assert forall|c: Seq<char>| cr.contains_key(c) implies #[trigger] cr[c] == cb[c] by {
                assert(cb.contains_key(c));
                let x2 = choose|x: Seq<char>| gives_command(model, m, e, c, x);
                assert(gives_command(model, m, e, c, x2));
                if n.commands.contains_key(c) {
                    assert(gives_command(model, m, e, c, k));
                } else {
                    let x1 = choose|x: Seq<char>| gives_command(model, md, e, c, x);
                    assert(a.contains_key(e) && a[e].commands.contains_key(c));
                    assert(gives_command(model, md, e, c, x1));
                    assert(gives_command(model, m, e, c, x1));
                    assert(contribution(model, m, x1) == contribution(model, md, x1));
                }
            }
            assert(cr =~= cb);
            if a.contains_key(e) {
                assert(r[e].entity == a[e].entity);
            }
        } else {
            assert(a.contains_key(e));
            assert forall|c: Seq<char>| #[trigger] cr.contains_key(c) <==> cb.contains_key(c) by {
                if cr.contains_key(c) {
                    let x = choose|x: Seq<char>| #[trigger] gives_command(model, md, e, c, x);
                    assert(x != k);
                    assert(gives_command(model, m, e, c, x));
                }
                if cb.contains_key(c) {
                    let x = choose|x: Seq<char>| #[trigger] gives_command(model, m, e, c, x);
                    assert(x != k);
                    assert(gives_command(model, md, e, c, x));
                }
            }
            assert forall|c: Seq<char>| cr.contains_key(c) implies #[trigger] cr[c] == cb[c] by {
                let x1 = choose|x: Seq<char>| gives_command(model, md, e, c, x);
                let x2 = choose|x: Seq<char>| gives_command(model, m, e, c, x);
                assert(gives_command(model, md, e, c, x1));
                assert(x1 != k);
                assert(gives_command(model, m, e, c, x1));
                assert(cb.contains_key(c));
                assert(gives_command(model, m, e, c, x2));
                assert(contribution(model, m, x1) == contribution(model, md, x1));
            }
            assert(cr =~= cb);
        }
    }
    assert(r =~= b);
}

proof fn lemma_entries_map_insert<V>(es: Seq<(Seq<char>, V)>)
    requires
        es.len() > 0,
        forall|i: int, j: int| 0 <= i < j < es.len() ==> #[trigger] es[i].0 != #[trigger] es[j].0,
    ensures
        !entries_map(es.drop_last()).contains_key(es.last().0),
        entries_map(es) == entries_map(es.drop_last()).insert(es.last().0, es.last().1),
{
    let d = es.drop_last();
    assert forall|i: int, j: int| 0 <= i < j < d.len() implies #[trigger] d[i].0 != #[trigger] d[j].0 by {
        assert(d[i] == es[i] && d[j] == es[j]);
    }
    lemma_entries_map_listing(d);
    if entries_map(d).contains_key(es.last().0) {
        let i = choose|i: int| 0 <= i < d.len() && d[i].0 == es.last().0;
        assert(es[i] == d[i]);
    }
}

/// The aggregates of domain events that give no error and agree on their
/// commands, visited in the order `es`, are those of the events.
proof fn lemma_aggregates_entries(model: JFields, es: Seq<(Seq<char>, JVal)>)
    requires
        forall|i: int, j: int| 0 <= i < j < es.len() ==> #[trigger] es[i].0 != #[trigger] es[j].0,
        no_event_errors(model, entries_map(es)),
        events_agree(model, entries_map(es)),
    ensures
        aggregates_from(model, es) == Ok::<Map<Seq<char>, AggregateV>, ToolErrorV>(aggregates_of(model, entries_map(es))),
    decreases es.len(),
{
    if es.len() == 0 {
        assert(aggregates_of(model, entries_map(es)) =~= Map::<Seq<char>, AggregateV>::empty());
    } else {
        let d = es.drop_last();
        let (k, v) = es.last();
        lemma_entries_map_insert(es);
        let md = entries_map(d);
        let m = entries_map(es);
        assert forall|i: int, j: int| 0 <= i < j < d.len() implies #[trigger] d[i].0 != #[trigger] d[j].0 by {
            assert(d[i] == es[i] && d[j] == es[j]);
        }
        assert forall|x: Seq<char>| x != k implies (#[trigger] m.contains_key(x) <==> md.contains_key(x)) by {}
        assert forall|x: Seq<char>| x != k && md.contains_key(x) implies #[trigger] m[x] == md[x] by {}
        assert(no_event_errors(model, md)) by {
            assert forall|x: Seq<char>| #[trigger] md.contains_key(x) implies !(event_aggregate(model, md[x]) matches Some(Err(_))) by {
                assert(m.contains_key(x) && m[x] == md[x]);
            }
        }
        assert(events_agree(model, md)) by {
            assert forall|e: Seq<char>, c: Seq<char>, k1: Seq<char>, k2: Seq<char>|
                #[trigger] gives_command(model, md, e, c, k1) && #[trigger] gives_command(model, md, e, c, k2)
                    implies contribution(model, md, k1).commands[c] == contribution(model, md, k2).commands[c] by {
                assert(m[k1] == md[k1] && m[k2] == md[k2]);
                assert(gives_command(model, m, e, c, k1) && gives_command(model, m, e, c, k2));
            }
        }
        lemma_aggregates_entries(model, d);
        assert(m.contains_key(k) && m[k] == v);
        assert(!(event_aggregate(model, v) matches Some(Err(_))));
        if contributes(model, m, k) {
            lemma_aggregates_of_add(model, md, m, k);
        } else {
            lemma_aggregates_of_same(model, md, m, k);
        }
    }
}

/// Extraction that succeeds meets no event that fails to give its
/// aggregate.
proof fn lemma_aggregates_ok_no_errors(model: JFields, es: Seq<(Seq<char>, JVal)>)
    requires
        aggregates_from(model, es) is Ok,
    ensures
        forall|i: int| 0 <= i < es.len() ==> !(event_aggregate(model, (#[trigger] es[i]).1) matches Some(Err(_))),
    decreases es.len(),
{
    if es.len() > 0 {
        lemma_aggregates_ok_no_errors(model, es.drop_last());
        assert forall|i: int| 0 <= i < es.len() implies !(event_aggregate(model, (#[trigger] es[i]).1) matches Some(Err(_))) by {
            if i < es.len() - 1 {
                assert(es.drop_last()[i] == es[i]);
            }
        }
    }
}

/// Where the extraction succeeds, and the domain events that give a command
/// of the same name to the same aggregate agree on it, the application does
/// not depend on the order in which the hash maps of the model are visited.
pub proof fn law_extract_order(
    model: JFields,
    ea1: Seq<(Seq<char>, JVal)>,
    ee1: Seq<(Seq<char>, JVal)>,
    ev1: Seq<(Seq<char>, JVal)>,
    ea2: Seq<(Seq<char>, JVal)>,
    ee2: Seq<(Seq<char>, JVal)>,
    ev2: Seq<(Seq<char>, JVal)>,
)
    requires
        is_listing(domain_events(model), ea1),
        is_listing(domain_events(model), ea2),
        is_listing(pointed_or_empty(model, entities_pointer()), ee1),
        is_listing(pointed_or_empty(model, entities_pointer()), ee2),
        is_listing(pointed_or_empty(model, value_objects_pointer()), ev1),
        is_listing(pointed_or_empty(model, value_objects_pointer()), ev2),
        events_agree(model, domain_events(model)),
        extract_spec(model, ea1, ee1, ev1) is Ok,
    ensures
        extract_spec(model, ea2, ee2, ev2) == extract_spec(model, ea1, ee1, ev1),
{
    let events = domain_events(model);
    lemma_entries_map_listing(ea1);
    lemma_listing_determines(events, entries_map(ea1), ea1);
    lemma_entries_map_listing(ea2);
    lemma_listing_determines(events, entries_map(ea2), ea2);
    lemma_aggregates_ok_no_errors(model, ea1);
    assert forall|x: Seq<char>| #[trigger] events.contains_key(x) implies !(event_aggregate(model, events[x]) matches Some(Err(_))) by {
        let i = choose|i: int| 0 <= i < ea1.len() && ea1[i].0 == x;
        assert(events.contains_key(ea1[i].0) && events[ea1[i].0] == ea1[i].1);
    }
    lemma_aggregates_entries(model, ea1);
    lemma_aggregates_entries(model, ea2);
    law_schema_objects_order(pointed_or_empty(model, entities_pointer()), ee1);
    law_schema_objects_order(pointed_or_empty(model, entities_pointer()), ee2);
    law_schema_objects_order(pointed_or_empty(model, value_objects_pointer()), ev1);
    law_schema_objects_order(pointed_or_empty(model, value_objects_pointer()), ev2);
}

} // verus!
