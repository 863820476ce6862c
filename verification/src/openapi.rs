//! The generator of OpenAPI specifications for JSON Streams applications:
//! one for the HTTP API of the aggregates and one for the stream of
//! server-sent events.
use vstd::prelude::*;
use crate::collections::{
    aggregate_entry_views, aggregate_map_entries, aggregate_map_get, field_list_items, field_views,
    schema_entry_views, schema_map_entries,
};
use crate::common::{Content, ContentV, FileV, OutputFile, file_views};
use crate::json::{
    JFields, JVal, add_array, add_bool, add_integer, add_object, add_string, array_add_object,
    array_add_string, array_append, array_items, array_new, as_object, field_arr, field_obj,
    get_array, get_object, is_listing, lemma_listing_entry, lemma_listing_len, merge, no_fields, no_items, object_entries, entry_views,
    object_clone, object_fields, object_new, object_value,
};
use crate::model::{Aggregate, AggregateV, App, AppV, Field, FieldV, Related, RelatedV, SchemaObject, SchemaObjectV, aggregates_keyed, listings};
use crate::text::{concat, concat3, lowercase, text_eq, to_lowercase};
use immutable_json::array::Array;
use immutable_json::object::Object;

verus! {

pub open spec fn str_field(key: Seq<char>, value: Seq<char>) -> JFields {
    no_fields().insert(key, JVal::Str(value))
}

pub open spec fn obj_field(key: Seq<char>, value: JFields) -> JFields {
    no_fields().insert(key, JVal::Obj(value))
}

pub open spec fn accepted_spec() -> JFields {
    str_field("description"@, "Accepted"@)
}

fn accepted() -> (res: Object)
    ensures
        object_fields(res) == accepted_spec(),
{
    add_string(&object_new(), "description", "Accepted")
}

pub open spec fn unauthorized_spec() -> JFields {
    str_field("description"@, "Unauthorized"@)
}

fn unauthorized() -> (res: Object)
    ensures
        object_fields(res) == unauthorized_spec(),
{
    add_string(&object_new(), "description", "Unauthorized")
}

pub open spec fn boolean_type_spec() -> JFields {
    str_field("type"@, "boolean"@)
}

fn boolean_type() -> (res: Object)
    ensures
        object_fields(res) == boolean_type_spec(),
{
    add_string(&object_new(), "type", "boolean")
}

pub open spec fn string_type_spec() -> JFields {
    str_field("type"@, "string"@)
}

fn string_type() -> (res: Object)
    ensures
        object_fields(res) == string_type_spec(),
{
    add_string(&object_new(), "type", "string")
}

pub open spec fn uuid_type_spec() -> JFields {
    str_field("type"@, "string"@).insert("format"@, JVal::Str("uuid"@))
}

fn uuid_type() -> (res: Object)
    ensures
        object_fields(res) == uuid_type_spec(),
{
    add_string(&add_string(&object_new(), "type", "string"), "format", "uuid")
}

pub open spec fn positive_integer_type_spec() -> JFields {
    str_field("type"@, "integer"@).insert("minimum"@, JVal::Int(0))
}

fn positive_integer_type() -> (res: Object)
    ensures
        object_fields(res) == positive_integer_type_spec(),
{
    add_integer(&add_string(&object_new(), "type", "integer"), "minimum", 0)
}

pub open spec fn const_type_spec(value: Seq<char>) -> JFields {
    str_field("const"@, value)
}

fn const_type(value: &str) -> (res: Object)
    ensures
        object_fields(res) == const_type_spec(value@),
{
    add_string(&object_new(), "const", value)
}

pub open spec fn ref_object_spec(reference: Seq<char>) -> JFields {
    str_field("$ref"@, reference)
}

fn ref_object(ref_name: &str) -> (res: Object)
    ensures
        object_fields(res) == ref_object_spec(ref_name@),
{
    add_string(&object_new(), "$ref", ref_name)
}

pub open spec fn any_object_spec() -> JFields {
    obj_field("schema"@, str_field("type"@, "object"@).insert("additionalProperties"@, JVal::Obj(no_fields())))
}

fn any_object() -> (res: Object)
    ensures
        object_fields(res) == any_object_spec(),
{
    add_object(
        &object_new(),
        "schema",
        &add_object(&add_string(&object_new(), "type", "object"), "additionalProperties", &object_new()),
    )
}

pub open spec fn jwt_schema_spec() -> JFields {
    obj_field("_jwt"@, any_object_spec())
}

fn jwt_schema() -> (res: Object)
    ensures
        object_fields(res) == jwt_schema_spec(),
{
    add_object(&object_new(), "_jwt", &any_object())
}

pub open spec fn seq_schema_spec() -> JFields {
    obj_field("_seq"@, positive_integer_type_spec())
}

fn seq_schema() -> (res: Object)
    ensures
        object_fields(res) == seq_schema_spec(),
{
    add_object(&object_new(), "_seq", &positive_integer_type())
}

/// The technical fields of an aggregate or a command: its identifier, its
/// correlation identifier, and its type.
pub open spec fn technical_fields_spec(type_label: Seq<char>) -> JFields {
    obj_field("_id"@, uuid_type_spec()).insert("_corr"@, JVal::Obj(uuid_type_spec())).insert(
        "_type"@,
        JVal::Obj(const_type_spec(type_label)),
    )
}

fn technical_fields_schema(type_label: &str) -> (res: Object)
    ensures
        object_fields(res) == technical_fields_spec(type_label@),
{
    let uuid = uuid_type();
    add_object(&add_object(&add_object(&object_new(), "_id", &uuid), "_corr", &uuid), "_type", &const_type(type_label))
}

/// A list of required names extended with the technical ones and the extra
/// ones.
pub open spec fn technical_required_spec(required: Seq<JVal>, extra: Seq<Seq<char>>) -> Seq<JVal> {
    required + seq![JVal::Str("_id"@), JVal::Str("_corr"@), JVal::Str("_type"@)] + Seq::new(extra.len(), |i: int| JVal::Str(extra[i]))
}

fn add_technical_required(array: &Array, extra_required: &[&str]) -> (res: Array)
    ensures
        array_items(res) == technical_required_spec(array_items(*array), Seq::new(extra_required@.len(), |i: int| extra_required@[i]@)),
{
    let mut a = array_add_string(&array_add_string(&array_add_string(array, "_id"), "_corr"), "_type");
    let ghost base = array_items(a);
    let ghost extra = Seq::new(extra_required@.len(), |i: int| extra_required@[i]@);
    let mut i: usize = 0;
    while i < extra_required.len()
        invariant
            i <= extra_required@.len(),
            extra == Seq::new(extra_required@.len(), |i: int| extra_required@[i]@),
            base == array_items(*array) + seq![JVal::Str("_id"@), JVal::Str("_corr"@), JVal::Str("_type"@)],
            array_items(a) == base + Seq::new(i as nat, |j: int| JVal::Str(extra[j])),
        decreases extra_required@.len() - i,
    {
        a = array_add_string(&a, extra_required[i]);
        proof {
            assert(Seq::new((i + 1) as nat, |j: int| JVal::Str(extra[j])) =~= Seq::new(i as nat, |j: int| JVal::Str(extra[j])).push(JVal::Str(extra_required@[i as int]@)));
        }
        i = i + 1;
    }
    proof {
        assert(base =~= array_items(*array) + seq![JVal::Str("_id"@), JVal::Str("_corr"@), JVal::Str("_type"@)]);
        assert(array_items(a) =~= technical_required_spec(array_items(*array), extra));
    }
    a
}

/// The properties of a schema, or none.
pub open spec fn properties_of(schema: JFields) -> JFields {
    match field_obj(schema, "properties"@) {
        Some(p) => p,
        None => no_fields(),
    }
}

/// The required names of a schema, or none.
pub open spec fn required_of(schema: JFields) -> Seq<JVal> {
    match field_arr(schema, "required"@) {
        Some(r) => r,
        None => no_items(),
    }
}

/// A schema with the technical properties added, and those of `extra`, and
/// with the technical names and those of `extra_required` added to the
/// required ones.
pub open spec fn technical_properties_spec(
    schema: JFields,
    type_label: Seq<char>,
    extra: JFields,
    extra_required: Seq<Seq<char>>,
) -> JFields {
    schema.insert(
        "properties"@,
        JVal::Obj(
            properties_of(schema).union_prefer_right(technical_fields_spec(type_label)).union_prefer_right(seq_schema_spec()).union_prefer_right(
                jwt_schema_spec(),
            ).union_prefer_right(extra),
        ),
    ).insert("required"@, JVal::Arr(technical_required_spec(required_of(schema), extra_required)))
}

fn add_technical_properties(schema: &Object, type_label: &str, extra_schema: Option<Object>, extra_required: &[&str]) -> (res: Object)
    ensures
        object_fields(res) == technical_properties_spec(
            object_fields(*schema),
            type_label@,
            match extra_schema {
                Some(e) => object_fields(e),
                None => no_fields(),
            },
            Seq::new(extra_required@.len(), |i: int| extra_required@[i]@),
        ),
{
    let properties = match get_object(schema, "properties") {
        Some(p) => p,
        None => object_new(),
    };
    let extra = match extra_schema {
        Some(e) => e,
        None => object_new(),
    };
    let required = match get_array(schema, "required") {
        Some(r) => r,
        None => array_new(),
    };
    let merged = merge(&merge(&merge(&merge(&properties, &technical_fields_schema(type_label)), &seq_schema()), &jwt_schema()), &extra);
    add_array(&add_object(schema, "properties", &merged), "required", &add_technical_required(&required, extra_required))
}

pub open spec fn entity_ref_spec(entity: Seq<char>) -> Seq<char> {
    "#/components/schemas/Entity"@ + entity
}

/// The reference to the schema of an entity.
pub fn entity_ref(entity: &str) -> (res: String)
    ensures
        res@ == entity_ref_spec(entity@),
{
    concat("#/components/schemas/Entity", entity)
}

pub open spec fn value_object_ref_spec(object: Seq<char>) -> Seq<char> {
    "#/components/schemas/ValueObject"@ + object
}

/// The reference to the schema of a value object.
pub fn value_object_ref(object: &str) -> (res: String)
    ensures
        res@ == value_object_ref_spec(object@),
{
    concat("#/components/schemas/ValueObject", object)
}

/// The reference to the schema of what a field refers to.
pub open spec fn related_ref(related: RelatedV) -> Seq<char> {
    match related {
        RelatedV::Entity(e) => entity_ref_spec(e),
        RelatedV::ValueObject(v) => value_object_ref_spec(v),
    }
}

/// The schema of a field that refers to something: an array of references
/// or a reference, depending on its data type.
pub open spec fn field_ref_spec(schema: JFields, data_type: Seq<char>, related: RelatedV) -> JFields {
    if data_type == "array"@ {
        schema.insert("type"@, JVal::Str("array"@)).insert("items"@, JVal::Obj(ref_object_spec(related_ref(related))))
    } else if data_type == "object"@ {
        schema.insert("$ref"@, JVal::Str(related_ref(related)))
    } else {
        schema
    }
}

fn field_ref_schema(schema: &Object, data_type: &str, related: &Related) -> (res: Object)
    ensures
        object_fields(res) == field_ref_spec(object_fields(*schema), data_type@, related@),
{
    let reference = match related {
        Related::Entity(e) => entity_ref(e.as_str()),
        Related::ValueObject(v) => value_object_ref(v.as_str()),
    };
    if text_eq(data_type, "array") {
        add_object(&add_string(schema, "type", "array"), "items", &ref_object(reference.as_str()))
    } else if text_eq(data_type, "object") {
        add_string(schema, "$ref", reference.as_str())
    } else {
        object_clone(schema)
    }
}

/// The schema of a field: its type, or the reference to what it refers to,
/// and its description.
pub open spec fn field_schema_spec(field: FieldV) -> JFields {
    let typed = if field.related is None {
        str_field("type"@, field.data_type)
    } else {
        no_fields()
    };
    let referred = match field.related {
        Some(r) => field_ref_spec(typed, field.data_type, r),
        None => typed,
    };
    match field.description {
        Some(d) => referred.insert("description"@, JVal::Str(d)),
        None => referred,
    }
}

fn field_schema(field: &Field) -> (res: Object)
    ensures
        object_fields(res) == field_schema_spec(field@),
{
    let typed = if field.related.is_none() {
        add_string(&object_new(), "type", field.data_type.as_str())
    } else {
        object_new()
    };
    let referred = match &field.related {
        Some(r) => field_ref_schema(&typed, field.data_type.as_str(), r),
        None => typed,
    };
    match &field.description {
        Some(d) => add_string(&referred, "description", d.as_str()),
        None => referred,
    }
}

/// The properties of some fields, by name.
pub open spec fn fields_schema_spec(fields: Seq<FieldV>) -> JFields
    decreases fields.len(),
{
    if fields.len() == 0 {
        no_fields()
    } else {
        fields_schema_spec(fields.drop_last()).insert(fields.last().name, JVal::Obj(field_schema_spec(fields.last())))
    }
}

/// The names of the required fields, in order.
pub open spec fn required_fields_spec(fields: Seq<FieldV>) -> Seq<JVal>
    decreases fields.len(),
{
    if fields.len() == 0 {
        no_items()
    } else if fields.last().required {
        required_fields_spec(fields.drop_last()).push(JVal::Str(fields.last().name))
    } else {
        required_fields_spec(fields.drop_last())
    }
}

fn fields_schema(fields: &Vec<Field>) -> (res: Object)
    ensures
        object_fields(res) == fields_schema_spec(field_views(fields@)),
{
    let ghost fs = field_views(fields@);
    let mut o = object_new();
    let mut i: usize = 0;
    proof {
        assert(fs.take(0) =~= Seq::<FieldV>::empty());
    }
    while i < fields.len()
        invariant
            i <= fields@.len(),
            fs == field_views(fields@),
            object_fields(o) == fields_schema_spec(fs.take(i as int)),
        decreases fields@.len() - i,
    {
        proof {
            assert(fs.take(i + 1).drop_last() =~= fs.take(i as int));
        }
        o = add_object(&o, fields[i].name.as_str(), &field_schema(&fields[i]));
        i = i + 1;
    }
    proof {
        assert(fs.take(fields@.len() as int) =~= fs);
    }
    o
}

fn required_fields(fields: &Vec<Field>) -> (res: Array)
    ensures
        array_items(res) == required_fields_spec(field_views(fields@)),
{
    let ghost fs = field_views(fields@);
    let mut a = array_new();
    let mut i: usize = 0;
    proof {
        assert(fs.take(0) =~= Seq::<FieldV>::empty());
    }
    while i < fields.len()
        invariant
            i <= fields@.len(),
            fs == field_views(fields@),
            array_items(a) == required_fields_spec(fs.take(i as int)),
        decreases fields@.len() - i,
    {
        proof {
            assert(fs.take(i + 1).drop_last() =~= fs.take(i as int));
        }
        if fields[i].required {
            a = array_add_string(&a, fields[i].name.as_str());
        }
        i = i + 1;
    }
    proof {
        assert(fs.take(fields@.len() as int) =~= fs);
    }
    a
}

/// The schema of an entity, a value object or a command.
pub open spec fn schema_object_schema_spec(object: SchemaObjectV) -> JFields {
    let base = str_field("type"@, "object"@).insert("properties"@, JVal::Obj(fields_schema_spec(object.fields))).insert(
        "required"@,
        JVal::Arr(required_fields_spec(object.fields)),
    );
    match object.description {
        Some(d) => base.insert("description"@, JVal::Str(d)),
        None => base,
    }
}

fn schema_object_schema(object: &SchemaObject) -> (res: Object)
    ensures
        object_fields(res) == schema_object_schema_spec(object@),
{
    let fields = field_list_items(&object.fields);
    let base = add_array(
        &add_object(&add_string(&object_new(), "type", "object"), "properties", &fields_schema(&fields)),
        "required",
        &required_fields(&fields),
    );
    match &object.description {
        Some(d) => add_string(&base, "description", d.as_str()),
        None => base,
    }
}

/// The type of the instances of an aggregate: the application and the
/// entity, in lower case.
pub open spec fn type_label_spec(app: AppV, a: AggregateV) -> Seq<char> {
    lowercase(app.name) + "-"@ + lowercase(a.entity)
}

fn type_label(app: &App, aggregate: &Aggregate) -> (res: String)
    ensures
        res@ == type_label_spec(app@, aggregate@),
{
    concat3(to_lowercase(app.name.as_str()).as_str(), "-", to_lowercase(aggregate.entity.as_str()).as_str())
}

pub open spec fn command_name_spec(a: AggregateV, c: SchemaObjectV) -> Seq<char> {
    "Command"@ + a.entity + c.name
}

fn command_name(aggregate: &Aggregate, command: &SchemaObject) -> (res: String)
    ensures
        res@ == command_name_spec(aggregate@, command@),
{
    concat3("Command", aggregate.entity.as_str(), command.name.as_str())
}

pub open spec fn command_ref_spec(a: AggregateV, c: SchemaObjectV) -> Seq<char> {
    "#/components/schemas/"@ + command_name_spec(a, c)
}

fn command_ref(aggregate: &Aggregate, command: &SchemaObject) -> (res: String)
    ensures
        res@ == command_ref_spec(aggregate@, command@),
{
    concat("#/components/schemas/", command_name(aggregate, command).as_str())
}

fn aggregate_ref(aggregate: &Aggregate) -> (res: String)
    ensures
        res@ == entity_ref_spec(aggregate@.entity),
{
    entity_ref(aggregate.entity.as_str())
}

pub open spec fn data_content_spec(reference: Seq<char>) -> JFields {
    obj_field("application/json"@, obj_field("schema"@, ref_object_spec(reference)))
}

fn data_content(schema_ref: &str) -> (res: Object)
    ensures
        object_fields(res) == data_content_spec(schema_ref@),
{
    add_object(&object_new(), "application/json", &add_object(&object_new(), "schema", &ref_object(schema_ref)))
}

pub open spec fn json_array_content_spec() -> JFields {
    obj_field(
        "application/json"@,
        obj_field("schema"@, str_field("type"@, "array"@).insert("items"@, JVal::Obj(any_object_spec()))),
    )
}

fn json_array_content() -> (res: Object)
    ensures
        object_fields(res) == json_array_content_spec(),
{
    add_object(
        &object_new(),
        "application/json",
        &add_object(&object_new(), "schema", &add_object(&add_string(&object_new(), "type", "array"), "items", &any_object())),
    )
}

pub open spec fn id_parameter_spec() -> JFields {
    str_field("name"@, "id"@).insert("in"@, JVal::Str("path"@)).insert("required"@, JVal::Bool(true)).insert(
        "schema"@,
        JVal::Obj(uuid_type_spec()),
    )
}

fn id_parameter() -> (res: Object)
    ensures
        object_fields(res) == id_parameter_spec(),
{
    add_object(
        &add_bool(&add_string(&add_string(&object_new(), "name", "id"), "in", "path"), "required", true),
        "schema",
        &uuid_type(),
    )
}

/// The operation that posts a command to an aggregate instance.
pub open spec fn command_spec(a: AggregateV) -> JFields {
    str_field("summary"@, "Post command to "@ + a.entity).insert("parameters"@, JVal::Arr(seq![JVal::Obj(id_parameter_spec())])).insert(
        "requestBody"@,
        JVal::Obj(obj_field("content"@, data_content_spec("#/components/schemas/Commands"@ + a.entity))),
    ).insert("responses"@, JVal::Obj(obj_field("202"@, accepted_spec()).insert("401"@, JVal::Obj(unauthorized_spec()))))
}

fn command(aggregate: &Aggregate) -> (res: Object)
    ensures
        object_fields(res) == command_spec(aggregate@),
{
    let parameters = array_add_object(&array_new(), &id_parameter());
    proof {
        assert(array_items(parameters) =~= seq![JVal::Obj(id_parameter_spec())]);
    }
    let body = add_object(
        &object_new(),
        "content",
        &data_content(concat("#/components/schemas/Commands", aggregate.entity.as_str()).as_str()),
    );
    let responses = add_object(&add_object(&object_new(), "202", &accepted()), "401", &unauthorized());
    add_object(
        &add_object(
            &add_array(&add_string(&object_new(), "summary", concat("Post command to ", aggregate.entity.as_str()).as_str()), "parameters", &parameters),
            "requestBody",
            &body,
        ),
        "responses",
        &responses,
    )
}

pub open spec fn fetch_responses_spec(a: AggregateV) -> JFields {
    obj_field(
        "200"@,
        str_field("description"@, "The aggregate instance as a JSON object"@).insert(
            "content"@,
            JVal::Obj(data_content_spec(entity_ref_spec(a.entity))),
        ),
    ).insert("401"@, JVal::Obj(unauthorized_spec()))
}

fn fetch_responses(aggregate: &Aggregate) -> (res: Object)
    ensures
        object_fields(res) == fetch_responses_spec(aggregate@),
{
    let ok = add_object(
        &add_string(&object_new(), "description", "The aggregate instance as a JSON object"),
        "content",
        &data_content(aggregate_ref(aggregate).as_str()),
    );
    add_object(&add_object(&object_new(), "200", &ok), "401", &unauthorized())
}

/// The operation that fetches an aggregate instance.
pub open spec fn fetch_aggregate_spec(a: AggregateV) -> JFields {
    str_field("summary"@, "Fetch "@ + a.entity).insert("parameters"@, JVal::Arr(seq![JVal::Obj(id_parameter_spec())])).insert(
        "responses"@,
        JVal::Obj(fetch_responses_spec(a)),
    )
}

fn fetch_aggregate(aggregate: &Aggregate) -> (res: Object)
    ensures
        object_fields(res) == fetch_aggregate_spec(aggregate@),
{
    let parameters = array_add_object(&array_new(), &id_parameter());
    proof {
        assert(array_items(parameters) =~= seq![JVal::Obj(id_parameter_spec())]);
    }
    add_object(
        &add_array(&add_string(&object_new(), "summary", concat("Fetch ", aggregate.entity.as_str()).as_str()), "parameters", &parameters),
        "responses",
        &fetch_responses(aggregate),
    )
}

pub open spec fn search_request_spec() -> JFields {
    str_field("description"@, "A MongoDB aggregation pipeline"@).insert("content"@, JVal::Obj(json_array_content_spec()))
}

fn search_request() -> (res: Object)
    ensures
        object_fields(res) == search_request_spec(),
{
    add_object(&add_string(&object_new(), "description", "A MongoDB aggregation pipeline"), "content", &json_array_content())
}

pub open spec fn search_responses_spec() -> JFields {
    obj_field(
        "200"@,
        str_field("description"@, "The results in a JSON array"@).insert("content"@, JVal::Obj(json_array_content_spec())),
    ).insert("401"@, JVal::Obj(unauthorized_spec()))
}

fn search_responses() -> (res: Object)
    ensures
        object_fields(res) == search_responses_spec(),
{
    let ok = add_object(&add_string(&object_new(), "description", "The results in a JSON array"), "content", &json_array_content());
    add_object(&add_object(&object_new(), "200", &ok), "401", &unauthorized())
}

/// The operation that searches the instances of an aggregate.
pub open spec fn search_spec(a: AggregateV) -> JFields {
    obj_field(
        "post"@,
        str_field("summary"@, "Search "@ + a.entity).insert(
            "description"@,
            JVal::Str("Search aggregate instances with a MongoDB aggregation pipeline"@),
        ).insert("requestBody"@, JVal::Obj(search_request_spec())).insert("responses"@, JVal::Obj(search_responses_spec())),
    )
}

fn search(aggregate: &Aggregate) -> (res: Object)
    ensures
        object_fields(res) == search_spec(aggregate@),
{
    let post = add_object(
        &add_object(
            &add_string(
                &add_string(&object_new(), "summary", concat("Search ", aggregate.entity.as_str()).as_str()),
                "description",
                "Search aggregate instances with a MongoDB aggregation pipeline",
            ),
            "requestBody",
            &search_request(),
        ),
        "responses",
        &search_responses(),
    );
    add_object(&object_new(), "post", &post)
}

/// The path of the instances of an aggregate.
pub open spec fn base_path(app: AppV, a: AggregateV) -> Seq<char> {
    "/"@ + lowercase(app.name) + "/"@ + lowercase(a.entity)
}

/// The paths of an aggregate added: searching its instances, and fetching
/// an instance or posting a command to it.
pub open spec fn http_paths_aggregate_spec(app: AppV, paths: JFields, a: AggregateV) -> JFields {
    paths.insert(base_path(app, a), JVal::Obj(search_spec(a))).insert(
        base_path(app, a) + "/{id}"@,
        JVal::Obj(obj_field("get"@, fetch_aggregate_spec(a)).insert("post"@, JVal::Obj(command_spec(a)))),
    )
}

fn http_paths_aggregate(app: &App, object: &Object, aggregate: &Aggregate) -> (res: Object)
    ensures
        object_fields(res) == http_paths_aggregate_spec(app@, object_fields(*object), aggregate@),
{
    let base_path = concat3(
        concat("/", to_lowercase(app.name.as_str()).as_str()).as_str(),
        "/",
        to_lowercase(aggregate.entity.as_str()).as_str(),
    );
    let operations = add_object(&add_object(&object_new(), "get", &fetch_aggregate(aggregate)), "post", &command(aggregate));
    add_object(&add_object(object, base_path.as_str(), &search(aggregate)), concat(base_path.as_str(), "/{id}").as_str(), &operations)
}

/// The paths of the aggregates of a listing.
pub open spec fn http_paths_spec(app: AppV, al: Seq<(Seq<char>, AggregateV)>) -> JFields
    decreases al.len(),
{
    if al.len() == 0 {
        no_fields()
    } else {
        http_paths_aggregate_spec(app, http_paths_spec(app, al.drop_last()), al.last().1)
    }
}

/// The HTTP paths of an application. The aggregates are taken in the order
/// of the hash map that holds them.
fn http_paths(app: &App) -> (res: Object)
    ensures
        exists|al: Seq<(Seq<char>, AggregateV)>| is_listing(app@.aggregates, al) && object_fields(res) == http_paths_spec(app@, al),
{
    let entries = aggregate_map_entries(&app.aggregates);
    let ghost al = aggregate_entry_views(entries@);
    let mut o = object_new();
    let mut i: usize = 0;
    proof {
        assert(al.take(0) =~= Seq::<(Seq<char>, AggregateV)>::empty());
    }
    while i < entries.len()
        invariant
            i <= entries@.len(),
            al == aggregate_entry_views(entries@),
            object_fields(o) == http_paths_spec(app@, al.take(i as int)),
        decreases entries@.len() - i,
    {
        proof {
            assert(al.take(i + 1).drop_last() =~= al.take(i as int));
        }
        o = http_paths_aggregate(app, &o, &entries[i].1);
        i = i + 1;
    }
    proof {
        assert(al.take(entries@.len() as int) =~= al);
        assert(is_listing(app@.aggregates, al));
    }
    o
}

pub open spec fn sse_responses_spec() -> JFields {
    obj_field(
        "200"@,
        str_field("description"@, "The stream of aggregate instances and invalid commands"@).insert(
            "content"@,
            JVal::Obj(
                obj_field(
                    "text/event-stream"@,
                    obj_field("schema"@, string_type_spec()).insert("itemSchema"@, JVal::Obj(str_field("$ref"@, "#/components/schemas/Sse"@))),
                ),
            ),
        ),
    ).insert("401"@, JVal::Obj(unauthorized_spec()))
}

fn sse_responses() -> (res: Object)
    ensures
        object_fields(res) == sse_responses_spec(),
{
    let stream = add_object(
        &add_object(&object_new(), "schema", &string_type()),
        "itemSchema",
        &add_string(&object_new(), "$ref", "#/components/schemas/Sse"),
    );
    let ok = add_object(
        &add_string(&object_new(), "description", "The stream of aggregate instances and invalid commands"),
        "content",
        &add_object(&object_new(), "text/event-stream", &stream),
    );
    add_object(&add_object(&object_new(), "200", &ok), "401", &unauthorized())
}

/// The one path of the stream of server-sent events.
pub open spec fn sse_paths_spec() -> JFields {
    obj_field(
        "/"@,
        obj_field(
            "get"@,
            no_fields().insert("tags"@, JVal::Arr(seq![JVal::Str("ServerSentEvents"@)])).insert(
                "summary"@,
                JVal::Str("The endpoint to receive a Server-Sent Event stream"@),
            ).insert("responses"@, JVal::Obj(sse_responses_spec())),
        ),
    )
}

fn sse_paths() -> (res: Object)
    ensures
        object_fields(res) == sse_paths_spec(),
{
    let tags = array_add_string(&array_new(), "ServerSentEvents");
    proof {
        assert(array_items(tags) =~= seq![JVal::Str("ServerSentEvents"@)]);
    }
    let get = add_object(
        &add_string(&add_array(&object_new(), "tags", &tags), "summary", "The endpoint to receive a Server-Sent Event stream"),
        "responses",
        &sse_responses(),
    );
    add_object(&object_new(), "/", &add_object(&object_new(), "get", &get))
}

/// The commands of the first `n` aggregates, each with its aggregate.
pub open spec fn flatten_spec(
    al: Seq<(Seq<char>, AggregateV)>,
    cls: Seq<Seq<(Seq<char>, SchemaObjectV)>>,
    n: nat,
) -> Seq<(AggregateV, SchemaObjectV)>
    decreases n,
{
    if n == 0 {
        Seq::empty()
    } else {
        flatten_spec(al, cls, (n - 1) as nat) + Seq::new(cls[n - 1].len(), |j: int| (al[n - 1].1, cls[n - 1][j].1))
    }
}

/// The commands of an application, each with its aggregate, in the order of
/// some listings.
pub open spec fn is_flattening(app: AppV, pairs: Seq<(AggregateV, SchemaObjectV)>) -> bool {
    exists|al: Seq<(Seq<char>, AggregateV)>, cls: Seq<Seq<(Seq<char>, SchemaObjectV)>>|
        listings(app, al, cls) && pairs == flatten_spec(al, cls, al.len())
}

pub open spec fn pair_views(s: Seq<(Aggregate, SchemaObject)>) -> Seq<(AggregateV, SchemaObjectV)> {
    Seq::new(s.len(), |i: int| (s[i].0@, s[i].1@))
}

/// The commands of an application, each with its aggregate. The aggregates
/// and their commands are taken in the order of the hash maps that hold them.
fn flatten_commands(app: &App) -> (res: Vec<(Aggregate, SchemaObject)>)
    ensures
        is_flattening(app@, pair_views(res@)),
{
    let entries = aggregate_map_entries(&app.aggregates);
    let ghost al = aggregate_entry_views(entries@);
    let ghost mut cls: Seq<Seq<(Seq<char>, SchemaObjectV)>> = Seq::empty();
    let mut res: Vec<(Aggregate, SchemaObject)> = Vec::new();
    proof {
        assert(pair_views(res@) =~= flatten_spec(al, cls, 0));
    }
    let mut i: usize = 0;
    while i < entries.len()
        invariant
            i <= entries@.len(),
            al == aggregate_entry_views(entries@),
            is_listing(app@.aggregates, al),
            cls.len() == i,
            forall|j: int| 0 <= j < i ==> is_listing(#[trigger] al[j].1.commands, cls[j]),
            pair_views(res@) == flatten_spec(al, cls, i as nat),
        decreases entries@.len() - i,
    {
        let aggregate = &entries[i].1;
        let commands = schema_map_entries(&aggregate.commands);
        let ghost cl = schema_entry_views(commands@);
        let ghost before = pair_views(res@);
        let mut j: usize = 0;
        while j < commands.len()
            invariant
                j <= commands@.len(),
                cl == schema_entry_views(commands@),
                pair_views(res@) == before + Seq::new(j as nat, |k: int| (aggregate@, cl[k].1)),
            decreases commands@.len() - j,
        {
            let a2 = aggregate.clone();
            let c2 = commands[j].1.clone();
            let ghost old_res = res@;
            res.push((a2, c2));
            proof {
                assert(res@ == old_res.push((a2, c2)));
                assert(cl[j as int].1 == c2@);
                assert(pair_views(res@) =~= pair_views(old_res).push((aggregate@, cl[j as int].1)));
                assert(pair_views(res@) =~= before + Seq::new((j + 1) as nat, |k: int| (aggregate@, cl[k].1)));
            }
            j = j + 1;
        }
        proof {
            assert(Seq::new(commands@.len() as nat, |k: int| (aggregate@, cl[k].1)) =~= Seq::new(cl.len(), |k: int| (aggregate@, cl[k].1)));
            let new_cls = cls.push(cl);
            assert(al[i as int].1 == aggregate@);
            lemma_flatten_prefix(al, cls, new_cls, i as nat);
            assert(pair_views(res@) =~= flatten_spec(al, new_cls, (i + 1) as nat));
            cls = new_cls;
        }
        i = i + 1;
    }
    proof {
        assert(listings(app@, al, cls));
    }
    res
}

proof fn lemma_flatten_prefix(
    al: Seq<(Seq<char>, AggregateV)>,
    cls1: Seq<Seq<(Seq<char>, SchemaObjectV)>>,
    cls2: Seq<Seq<(Seq<char>, SchemaObjectV)>>,
    n: nat,
)
    requires
        n <= cls1.len(),
        n <= cls2.len(),
        forall|j: int| 0 <= j < n ==> cls1[j] == cls2[j],
    ensures
        flatten_spec(al, cls1, n) == flatten_spec(al, cls2, n),
    decreases n,
{
    if n > 0 {
        lemma_flatten_prefix(al, cls1, cls2, (n - 1) as nat);
    }
}

pub open spec fn command_field_spec(c: SchemaObjectV) -> JFields {
    obj_field("_command"@, const_type_spec(c.name))
}

fn command_field_schema(command: &SchemaObject) -> (res: Object)
    ensures
        object_fields(res) == command_field_spec(command@),
{
    add_object(&object_new(), "_command", &const_type(command.name.as_str()))
}

/// The schema of a command, with the technical properties and `_command`.
pub open spec fn command_schema_spec(c: SchemaObjectV, app: AppV, a: AggregateV) -> JFields {
    technical_properties_spec(schema_object_schema_spec(c), type_label_spec(app, a), command_field_spec(c), seq!["_command"@])
}

fn command_schema(command: &SchemaObject, app: &App, aggregate: &Aggregate) -> (res: Object)
    ensures
        object_fields(res) == command_schema_spec(command@, app@, aggregate@),
{
    let extra: [&str; 1] = ["_command"];
    let res = add_technical_properties(
        &schema_object_schema(command),
        type_label(app, aggregate).as_str(),
        Some(command_field_schema(command)),
        &extra,
    );
    proof {
        assert(Seq::new(extra@.len(), |i: int| extra@[i]@) =~= seq!["_command"@]);
    }
    res
}

/// The properties that a command has when it was refused.
pub open spec fn command_error_spec() -> JFields {
    obj_field("_error"@, boolean_type_spec()).insert(
        "errors"@,
        JVal::Obj(
            str_field("type"@, "array"@).insert(
                "items"@,
                JVal::Obj(
                    str_field("type"@, "object"@).insert(
                        "properties"@,
                        JVal::Obj(obj_field("location"@, string_type_spec()).insert("code"@, JVal::Obj(string_type_spec()))),
                    ),
                ),
            ),
        ),
    )
}

fn command_error_schema() -> (res: Object)
    ensures
        object_fields(res) == command_error_spec(),
{
    let properties = add_object(&add_object(&object_new(), "location", &string_type()), "code", &string_type());
    let items = add_object(&add_string(&object_new(), "type", "object"), "properties", &properties);
    let errors = add_object(&add_string(&object_new(), "type", "array"), "items", &items);
    add_object(&add_object(&object_new(), "_error", &boolean_type()), "errors", &errors)
}

/// A schema with the properties of a refusal added to its properties.
pub open spec fn with_refusal(schema: JFields) -> JFields {
    schema.insert("properties"@, JVal::Obj(properties_of(schema).union_prefer_right(command_error_spec())))
}

/// The schema of a command in the specification, with the properties of a
/// refusal where `with_errors` holds.
pub open spec fn command_entry_schema(c: SchemaObjectV, app: AppV, a: AggregateV, with_errors: bool) -> JFields {
    let schema = command_schema_spec(c, app, a);
    if with_errors {
        with_refusal(schema)
    } else {
        schema
    }
}

/// The schemas of the commands of some pairs, by their names.
pub open spec fn command_schemas_spec(app: AppV, with_errors: bool, pairs: Seq<(AggregateV, SchemaObjectV)>) -> JFields
    decreases pairs.len(),
{
    if pairs.len() == 0 {
        no_fields()
    } else {
        let (a, c) = pairs.last();
        command_schemas_spec(app, with_errors, pairs.drop_last()).insert(
            command_name_spec(a, c),
            JVal::Obj(command_entry_schema(c, app, a, with_errors)),
        )
    }
}

/// The schemas of the commands of some pairs, with the properties of a
/// refusal where `with_errors` holds.
fn command_schemas(app: &App, pairs: &Vec<(Aggregate, SchemaObject)>, with_errors: bool) -> (res: Object)
    ensures
        object_fields(res) == command_schemas_spec(app@, with_errors, pair_views(pairs@)),
{
    let ghost ps = pair_views(pairs@);
    let mut s = object_new();
    let mut i: usize = 0;
    proof {
        assert(ps.take(0) =~= Seq::<(AggregateV, SchemaObjectV)>::empty());
    }
    while i < pairs.len()
        invariant
            i <= pairs@.len(),
            ps == pair_views(pairs@),
            object_fields(s) == command_schemas_spec(app@, with_errors, ps.take(i as int)),
        decreases pairs@.len() - i,
    {
        proof {
            assert(ps.take(i + 1).drop_last() =~= ps.take(i as int));
        }
        let (a, c) = &pairs[i];
        let schema = command_schema(c, app, a);
        let entry = if with_errors {
            let properties = match get_object(&schema, "properties") {
                Some(p) => p,
                None => object_new(),
            };
            add_object(&schema, "properties", &merge(&properties, &command_error_schema()))
        } else {
            schema
        };
        s = add_object(&s, command_name(a, c).as_str(), &entry);
        i = i + 1;
    }
    proof {
        assert(ps.take(pairs@.len() as int) =~= ps);
    }
    s
}

/// The references to the schemas of some commands of an aggregate.
pub open spec fn command_refs_of(a: AggregateV, cl: Seq<(Seq<char>, SchemaObjectV)>) -> Seq<JVal> {
    Seq::new(cl.len(), |i: int| JVal::Obj(ref_object_spec(command_ref_spec(a, cl[i].1))))
}

/// The schema of the commands of an aggregate: any of them.
pub open spec fn commands_schema_spec(a: AggregateV, cl: Seq<(Seq<char>, SchemaObjectV)>) -> JFields {
    no_fields().insert("anyOf"@, JVal::Arr(command_refs_of(a, cl)))
}

fn commands_schema(aggregate: &Aggregate) -> (res: Object)
    ensures
        exists|cl: Seq<(Seq<char>, SchemaObjectV)>|
            is_listing(aggregate@.commands, cl) && object_fields(res) == commands_schema_spec(aggregate@, cl),
{
    let commands = schema_map_entries(&aggregate.commands);
    let ghost cl = schema_entry_views(commands@);
    let mut a = array_new();
    let mut i: usize = 0;
    proof {
        assert(array_items(a) =~= command_refs_of(aggregate@, cl.take(0)));
    }
    while i < commands.len()
        invariant
            i <= commands@.len(),
            cl == schema_entry_views(commands@),
            array_items(a) == command_refs_of(aggregate@, cl.take(i as int)),
        decreases commands@.len() - i,
    {
        a = array_add_object(&a, &ref_object(command_ref(aggregate, &commands[i].1).as_str()));
        proof {
            assert(array_items(a) =~= command_refs_of(aggregate@, cl.take(i + 1)));
        }
        i = i + 1;
    }
    proof {
        assert(cl.take(commands@.len() as int) =~= cl);
        assert(is_listing(aggregate@.commands, cl));
    }
    let r = add_array(&object_new(), "anyOf", &a);
    proof {
        assert(object_fields(r) == commands_schema_spec(aggregate@, cl));
    }
    r
}

/// The schemas of the commands of the first `n` aggregates, by
/// `Commands<entity>`.
pub open spec fn aggregate_commands_spec(
    al: Seq<(Seq<char>, AggregateV)>,
    cls: Seq<Seq<(Seq<char>, SchemaObjectV)>>,
    n: nat,
) -> JFields
    decreases n,
{
    if n == 0 {
        no_fields()
    } else {
        aggregate_commands_spec(al, cls, (n - 1) as nat).insert(
            "Commands"@ + al[n - 1].1.entity,
            JVal::Obj(commands_schema_spec(al[n - 1].1, cls[n - 1])),
        )
    }
}

pub open spec fn is_aggregate_commands(app: AppV, r: JFields) -> bool {
    exists|al: Seq<(Seq<char>, AggregateV)>, cls: Seq<Seq<(Seq<char>, SchemaObjectV)>>|
        listings(app, al, cls) && r == aggregate_commands_spec(al, cls, al.len())
}

proof fn lemma_aggregate_commands_prefix(
    al: Seq<(Seq<char>, AggregateV)>,
    cls1: Seq<Seq<(Seq<char>, SchemaObjectV)>>,
    cls2: Seq<Seq<(Seq<char>, SchemaObjectV)>>,
    n: nat,
)
    requires
        n <= cls1.len(),
        n <= cls2.len(),
        forall|j: int| 0 <= j < n ==> cls1[j] == cls2[j],
    ensures
        aggregate_commands_spec(al, cls1, n) == aggregate_commands_spec(al, cls2, n),
    decreases n,
{
    if n > 0 {
        lemma_aggregate_commands_prefix(al, cls1, cls2, (n - 1) as nat);
    }
}

fn aggregate_commands_schema(app: &App) -> (res: Object)
    ensures
        is_aggregate_commands(app@, object_fields(res)),
{
    let entries = aggregate_map_entries(&app.aggregates);
    let ghost al = aggregate_entry_views(entries@);
    let ghost mut cls: Seq<Seq<(Seq<char>, SchemaObjectV)>> = Seq::empty();
    let mut o = object_new();
    let mut i: usize = 0;
    while i < entries.len()
        invariant
            i <= entries@.len(),
            al == aggregate_entry_views(entries@),
            is_listing(app@.aggregates, al),
            cls.len() == i,
            forall|j: int| 0 <= j < i ==> is_listing(#[trigger] al[j].1.commands, cls[j]),
            object_fields(o) == aggregate_commands_spec(al, cls, i as nat),
        decreases entries@.len() - i,
    {
        let aggregate = &entries[i].1;
        let schema = commands_schema(aggregate);
        let ghost cl = choose|cl: Seq<(Seq<char>, SchemaObjectV)>|
            is_listing(aggregate@.commands, cl) && object_fields(schema) == commands_schema_spec(aggregate@, cl);
        o = add_object(&o, concat("Commands", aggregate.entity.as_str()).as_str(), &schema);
        proof {
            let new_cls = cls.push(cl);
            assert(al[i as int].1 == aggregate@);
            lemma_aggregate_commands_prefix(al, cls, new_cls, i as nat);
            cls = new_cls;
        }
        i = i + 1;
    }
    proof {
        assert(listings(app@, al, cls));
    }
    o
}

/// The schemas of some entities or value objects, by their names under a
/// prefix.
pub open spec fn schema_object_schemas_spec(objects: Seq<(Seq<char>, SchemaObjectV)>, prefix: Seq<char>) -> JFields
    decreases objects.len(),
{
    if objects.len() == 0 {
        no_fields()
    } else {
        schema_object_schemas_spec(objects.drop_last(), prefix).insert(
            prefix + objects.last().1.name,
            JVal::Obj(schema_object_schema_spec(objects.last().1)),
        )
    }
}

fn schema_object_schemas(objects: &crate::collections::SchemaMap, prefix: &str) -> (res: Object)
    ensures
        exists|ol: Seq<(Seq<char>, SchemaObjectV)>|
            is_listing(crate::collections::schema_entries(*objects), ol) && object_fields(res) == schema_object_schemas_spec(ol, prefix@),
{
    let entries = schema_map_entries(objects);
    let ghost ol = schema_entry_views(entries@);
    let mut s = object_new();
    let mut i: usize = 0;
    proof {
        assert(ol.take(0) =~= Seq::<(Seq<char>, SchemaObjectV)>::empty());
    }
    while i < entries.len()
        invariant
            i <= entries@.len(),
            ol == schema_entry_views(entries@),
            object_fields(s) == schema_object_schemas_spec(ol.take(i as int), prefix@),
        decreases entries@.len() - i,
    {
        proof {
            assert(ol.take(i + 1).drop_last() =~= ol.take(i as int));
        }
        let o = &entries[i].1;
        s = add_object(&s, concat(prefix, o.name.as_str()).as_str(), &schema_object_schema(o));
        i = i + 1;
    }
    proof {
        assert(ol.take(entries@.len() as int) =~= ol);
        assert(is_listing(crate::collections::schema_entries(*objects), ol));
    }
    s
}

/// The entity schemas where the schemas named like an aggregate get the
/// technical properties and `_seq`, visiting them in the order `sl`.
pub open spec fn aggregate_properties_spec(schemas: JFields, app: AppV, sl: Seq<(Seq<char>, JVal)>) -> JFields
    decreases sl.len(),
{
    if sl.len() == 0 {
        schemas
    } else {
        let s = aggregate_properties_spec(schemas, app, sl.drop_last());
        let (k, v) = sl.last();
        match v {
            JVal::Obj(e) => if app.aggregates.contains_key(k) {
                s.insert(k, JVal::Obj(technical_properties_spec(e, type_label_spec(app, app.aggregates[k]), no_fields(), seq!["_seq"@])))
            } else {
                s
            },
            _ => s,
        }
    }
}

fn add_aggregate_properties(entity_schemas: &Object, app: &App) -> (res: Object)
    ensures
        exists|sl: Seq<(Seq<char>, JVal)>|
            is_listing(object_fields(*entity_schemas), sl)
                && object_fields(res) == aggregate_properties_spec(object_fields(*entity_schemas), app@, sl),
{
    let entries = object_entries(entity_schemas);
    let ghost sl = entry_views(entries@);
    let mut s = object_clone(entity_schemas);
    let mut i: usize = 0;
    proof {
        assert(sl.take(0) =~= Seq::<(Seq<char>, JVal)>::empty());
    }
    while i < entries.len()
        invariant
            i <= entries@.len(),
            sl == entry_views(entries@),
            object_fields(s) == aggregate_properties_spec(object_fields(*entity_schemas), app@, sl.take(i as int)),
        decreases entries@.len() - i,
    {
        proof {
            assert(sl.take(i + 1).drop_last() =~= sl.take(i as int));
        }
        let (k, v) = &entries[i];
        match as_object(v) {
            Some(e) => match aggregate_map_get(&app.aggregates, k) {
                Some(a) => {
                    let extra: [&str; 1] = ["_seq"];
                    let with_properties = add_technical_properties(&e, type_label(app, a).as_str(), None, &extra);
                    proof {
                        assert(Seq::new(extra@.len(), |i: int| extra@[i]@) =~= seq!["_seq"@]);
                    }
                    s = add_object(&s, k.as_str(), &with_properties);
                },
                None => {},
            },
            None => {},
        }
        i = i + 1;
    }
    proof {
        assert(sl.take(entries@.len() as int) =~= sl);
    }
    s
}

/// The schemas of the entities: each under `Entity<name>`, with the
/// technical properties where the name is that of an aggregate.
pub open spec fn is_entity_schemas(app: AppV, r: JFields) -> bool {
    exists|el: Seq<(Seq<char>, SchemaObjectV)>, sl: Seq<(Seq<char>, JVal)>|
        is_listing(app.entities, el) && is_listing(schema_object_schemas_spec(el, "Entity"@), sl)
            && r == aggregate_properties_spec(schema_object_schemas_spec(el, "Entity"@), app, sl)
}

/// The schemas of the value objects, each under `ValueObject<name>`.
pub open spec fn is_value_object_schemas(app: AppV, r: JFields) -> bool {
    exists|vl: Seq<(Seq<char>, SchemaObjectV)>| is_listing(app.value_objects, vl) && r == schema_object_schemas_spec(vl, "ValueObject"@)
}

/// The schemas that both specifications share: the commands of each
/// aggregate, the commands of the pairs, the entities and the value objects,
/// merged in that order.
pub open spec fn is_common_schema(app: AppV, with_errors: bool, pairs: Seq<(AggregateV, SchemaObjectV)>, r: JFields) -> bool {
    exists|a: JFields, c: JFields, d: JFields|
        is_aggregate_commands(app, a) && is_entity_schemas(app, c) && is_value_object_schemas(app, d)
            && r == a.union_prefer_right(command_schemas_spec(app, with_errors, pairs)).union_prefer_right(c).union_prefer_right(d)
}

fn common_schema(app: &App, pairs: &Vec<(Aggregate, SchemaObject)>, with_errors: bool) -> (res: Object)
    ensures
        is_common_schema(app@, with_errors, pair_views(pairs@), object_fields(res)),
{
    let a = aggregate_commands_schema(app);
    let b = command_schemas(app, pairs, with_errors);
    let entity_schemas = schema_object_schemas(&app.entities, "Entity");
    let c = add_aggregate_properties(&entity_schemas, app);
    let d = schema_object_schemas(&app.value_objects, "ValueObject");
    proof {
        let el = choose|ol: Seq<(Seq<char>, SchemaObjectV)>|
            is_listing(crate::collections::schema_entries(app.entities), ol) && object_fields(entity_schemas) == schema_object_schemas_spec(ol, "Entity"@);
        let sl = choose|sl: Seq<(Seq<char>, JVal)>|
            is_listing(object_fields(entity_schemas), sl)
                && object_fields(c) == aggregate_properties_spec(object_fields(entity_schemas), app@, sl);
        assert(is_entity_schemas(app@, object_fields(c)));
        assert(is_value_object_schemas(app@, object_fields(d)));
    }
    merge(&merge(&merge(&a, &b), &c), &d)
}

/// References to the schemas of the aggregates of a listing.
pub open spec fn aggregate_refs_spec(al: Seq<(Seq<char>, AggregateV)>) -> Seq<JVal> {
    Seq::new(al.len(), |i: int| JVal::Obj(ref_object_spec(entity_ref_spec(al[i].1.entity))))
}

fn aggregate_refs(app: &App) -> (res: Array)
    ensures
        exists|al: Seq<(Seq<char>, AggregateV)>| is_listing(app@.aggregates, al) && array_items(res) == aggregate_refs_spec(al),
{
    let entries = aggregate_map_entries(&app.aggregates);
    let ghost al = aggregate_entry_views(entries@);
    let mut a = array_new();
    let mut i: usize = 0;
    proof {
        assert(array_items(a) =~= aggregate_refs_spec(al.take(0)));
    }
    while i < entries.len()
        invariant
            i <= entries@.len(),
            al == aggregate_entry_views(entries@),
            array_items(a) == aggregate_refs_spec(al.take(i as int)),
        decreases entries@.len() - i,
    {
        a = array_add_object(&a, &ref_object(aggregate_ref(&entries[i].1).as_str()));
        proof {
            assert(array_items(a) =~= aggregate_refs_spec(al.take(i + 1)));
        }
        i = i + 1;
    }
    proof {
        assert(al.take(entries@.len() as int) =~= al);
        assert(is_listing(app@.aggregates, al));
    }
    a
}

/// References to the schemas of the commands of some pairs.
pub open spec fn command_refs_spec(pairs: Seq<(AggregateV, SchemaObjectV)>) -> Seq<JVal> {
    Seq::new(pairs.len(), |i: int| JVal::Obj(ref_object_spec(command_ref_spec(pairs[i].0, pairs[i].1))))
}

fn command_refs(pairs: &Vec<(Aggregate, SchemaObject)>) -> (res: Array)
    ensures
        array_items(res) == command_refs_spec(pair_views(pairs@)),
{
    let ghost ps = pair_views(pairs@);
    let mut a = array_new();
    let mut i: usize = 0;
    proof {
        assert(array_items(a) =~= command_refs_spec(ps.take(0)));
    }
    while i < pairs.len()
        invariant
            i <= pairs@.len(),
            ps == pair_views(pairs@),
            array_items(a) == command_refs_spec(ps.take(i as int)),
        decreases pairs@.len() - i,
    {
        let (ag, c) = &pairs[i];
        a = array_add_object(&a, &ref_object(command_ref(ag, c).as_str()));
        proof {
            assert(array_items(a) =~= command_refs_spec(ps.take(i + 1)));
        }
        i = i + 1;
    }
    proof {
        assert(ps.take(pairs@.len() as int) =~= ps);
    }
    a
}

/// The schema of an event of the stream: any aggregate or any command of
/// the pairs.
pub open spec fn is_sse_schema(app: AppV, pairs: Seq<(AggregateV, SchemaObjectV)>, r: JFields) -> bool {
    exists|al: Seq<(Seq<char>, AggregateV)>|
        is_listing(app.aggregates, al)
            && r == obj_field("Sse"@, no_fields().insert("anyOf"@, JVal::Arr(aggregate_refs_spec(al) + command_refs_spec(pairs))))
}

fn sse_schema(app: &App, pairs: &Vec<(Aggregate, SchemaObject)>) -> (res: Object)
    ensures
        is_sse_schema(app@, pair_views(pairs@), object_fields(res)),
{
    let aggregates = aggregate_refs(app);
    let commands = command_refs(pairs);
    add_object(&object_new(), "Sse", &add_array(&object_new(), "anyOf", &array_append(&aggregates, &commands)))
}

/// The `info` of a template, or none.
pub open spec fn info_of(template: JFields) -> JFields {
    match field_obj(template, "info"@) {
        Some(i) => i,
        None => no_fields(),
    }
}

/// The template with the title and the version of the application put in
/// its `info`.
pub open spec fn merge_info_spec(template: JFields, app: AppV) -> JFields {
    let info = info_of(template);
    template.insert("info"@, JVal::Obj(info.insert("title"@, JVal::Str(app.name)).insert("version"@, JVal::Str(app.version))))
}

fn merge_info(template: &Object, app: &App) -> (res: Object)
    ensures
        object_fields(res) == merge_info_spec(object_fields(*template), app@),
{
    let info = match get_object(template, "info") {
        Some(i) => i,
        None => object_new(),
    };
    add_object(template, "info", &add_string(&add_string(&info, "title", app.name.as_str()), "version", app.version.as_str()))
}

/// The specification of the HTTP API: the template with the paths of the
/// aggregates and the common schemas.
pub open spec fn is_http_doc(app: AppV, template: JFields, pairs: Seq<(AggregateV, SchemaObjectV)>, r: JFields) -> bool {
    exists|al: Seq<(Seq<char>, AggregateV)>, schemas: JFields|
        is_listing(app.aggregates, al) && is_common_schema(app, false, pairs, schemas)
            && r == template.insert("paths"@, JVal::Obj(http_paths_spec(app, al))).insert(
                "components"@,
                JVal::Obj(obj_field("schemas"@, schemas)),
            )
}

fn http_document(app: &App, pairs: &Vec<(Aggregate, SchemaObject)>, template: &Object) -> (res: Object)
    ensures
        is_http_doc(app@, object_fields(*template), pair_views(pairs@), object_fields(res)),
{
    let paths = http_paths(app);
    let schemas = common_schema(app, pairs, false);
    let r = add_object(&add_object(template, "paths", &paths), "components", &add_object(&object_new(), "schemas", &schemas));
    proof {
        let al = choose|al: Seq<(Seq<char>, AggregateV)>| is_listing(app@.aggregates, al) && object_fields(paths) == http_paths_spec(app@, al);
        assert(is_listing(app@.aggregates, al) && is_common_schema(app@, false, pair_views(pairs@), object_fields(schemas)));
        assert(object_fields(r) == object_fields(*template).insert("paths"@, JVal::Obj(http_paths_spec(app@, al))).insert(
            "components"@,
            JVal::Obj(obj_field("schemas"@, object_fields(schemas))),
        ));
        assert(is_http_doc(app@, object_fields(*template), pair_views(pairs@), object_fields(r)));
    }
    r
}

/// The specification of the stream of server-sent events: the template with
/// the one path of the stream, the common schemas with refusals, and the
/// schema of the events.
pub open spec fn is_sse_doc(app: AppV, template: JFields, pairs: Seq<(AggregateV, SchemaObjectV)>, r: JFields) -> bool {
    exists|schemas: JFields, sse: JFields|
        is_common_schema(app, true, pairs, schemas) && is_sse_schema(app, pairs, sse)
            && r == template.insert("paths"@, JVal::Obj(sse_paths_spec())).insert(
                "components"@,
                JVal::Obj(obj_field("schemas"@, schemas.union_prefer_right(sse))),
            )
}

fn sse_document(app: &App, pairs: &Vec<(Aggregate, SchemaObject)>, template: &Object) -> (res: Object)
    ensures
        is_sse_doc(app@, object_fields(*template), pair_views(pairs@), object_fields(res)),
{
    let schemas = common_schema(app, pairs, true);
    let sse = sse_schema(app, pairs);
    add_object(&add_object(template, "paths", &sse_paths()), "components", &add_object(&object_new(), "schemas", &merge(&schemas, &sse)))
}

pub open spec fn openapi_version() -> Seq<char> {
    "3.2.0"@
}

/// The template that both specifications start from: the given one, or an
/// empty one, with the OpenAPI version, and with the title and the version
/// of the application in its `info`.
pub open spec fn base_template(template: Option<JFields>, app: AppV) -> JFields {
    let t = match template {
        Some(t) => t,
        None => no_fields(),
    };
    merge_info_spec(t.insert("openapi"@, JVal::Str(openapi_version())), app)
}

/// The OpenAPI specifications of an application, as the files `http.yaml`
/// and `sse.yaml`, from a template if there is one. Both take the commands in
/// the same order, that of the hash maps that hold them.
pub fn generate(app: &App, template: Option<&Object>) -> (res: Vec<OutputFile>)
    ensures
        res@.len() == 2,
        res@[0]@.name == "http.yaml"@,
        res@[1]@.name == "sse.yaml"@,
        exists|pairs: Seq<(AggregateV, SchemaObjectV)>| {
            &&& is_flattening(app@, pairs)
            &&& res@[0]@.content matches ContentV::Yaml(JVal::Obj(d)) && is_http_doc(
                app@,
                base_template(
                    match template {
                        Some(t) => Some(object_fields(*t)),
                        None => None,
                    },
                    app@,
                ),
                pairs,
                d,
            )
            &&& res@[1]@.content matches ContentV::Yaml(JVal::Obj(d)) && is_sse_doc(
                app@,
                base_template(
                    match template {
                        Some(t) => Some(object_fields(*t)),
                        None => None,
                    },
                    app@,
                ),
                pairs,
                d,
            )
        },
{
    let start = match template {
        Some(t) => object_clone(t),
        None => object_new(),
    };
    let real_template = merge_info(&add_string(&start, "openapi", "3.2.0"), app);
    let pairs = flatten_commands(app);
    let http = http_document(app, &pairs, &real_template);
    let sse = sse_document(app, &pairs, &real_template);
    let mut files: Vec<OutputFile> = Vec::new();
    files.push(OutputFile { name: String::from_str("http.yaml"), content: Content::Yaml(object_value(&http)) });
    files.push(OutputFile { name: String::from_str("sse.yaml"), content: Content::Yaml(object_value(&sse)) });
    proof {
        assert(is_flattening(app@, pair_views(pairs@)));
    }
    files
}

/// A reference to a schema of the specification, by name.
pub open spec fn schema_ref_object(name: Seq<char>) -> JVal {
    JVal::Obj(no_fields().insert("$ref"@, JVal::Str("#/components/schemas/"@ + name)))
}

/// A schema that admits any command of an aggregate: its `anyOf` holds one
/// reference per command of the aggregate, to that command's schema.
pub open spec fn lists_command_refs(schema: JFields, a: AggregateV) -> bool {
    schema.contains_key("anyOf"@) && match schema["anyOf"@] {
        JVal::Arr(items) => {
            &&& a.commands.dom().finite()
            &&& items.len() == a.commands.dom().len()
            &&& forall|k: Seq<char>| #[trigger] a.commands.contains_key(k) ==> exists|i: int|
                0 <= i < items.len() && items[i] == schema_ref_object("Command"@ + a.entity + a.commands[k].name)
        },
        _ => false,
    }
}

/// The schema of the commands of an aggregate admits each of its commands,
/// whatever the order in which they are visited.
pub proof fn law_commands_schema_lists(a: AggregateV, cl: Seq<(Seq<char>, SchemaObjectV)>)
    requires
        is_listing(a.commands, cl),
    ensures
        lists_command_refs(commands_schema_spec(a, cl), a),
{
    lemma_listing_len(a.commands, cl);
    reveal_strlit("#/components/schemas/");
    reveal_strlit("Command");
    let items = command_refs_of(a, cl);
    assert forall|k: Seq<char>| #[trigger] a.commands.contains_key(k) implies exists|i: int|
        0 <= i < items.len() && items[i] == schema_ref_object("Command"@ + a.entity + a.commands[k].name) by {
        let j = choose|j: int| 0 <= j < cl.len() && cl[j].0 == k;
        lemma_listing_entry(a.commands, cl, j);
        assert("#/components/schemas/"@ + ("Command"@ + a.entity + cl[j].1.name)
            =~= "#/components/schemas/"@ + command_name_spec(a, cl[j].1));
        assert(items[j] == schema_ref_object("Command"@ + a.entity + a.commands[k].name));
    }
}

/// A map of schemas that holds, under `Commands<entity>`, the schema that
/// admits the commands of the aggregate.
pub open spec fn has_commands_schema(r: JFields, a: AggregateV) -> bool {
    r.contains_key("Commands"@ + a.entity) && match r["Commands"@ + a.entity] {
        JVal::Obj(s) => lists_command_refs(s, a),
        _ => false,
    }
}

proof fn lemma_aggregate_commands_entries(
    app: AppV,
    al: Seq<(Seq<char>, AggregateV)>,
    cls: Seq<Seq<(Seq<char>, SchemaObjectV)>>,
    n: nat,
)
    requires
        listings(app, al, cls),
        aggregates_keyed(app.aggregates),
        n <= al.len(),
    ensures
        forall|j: int| 0 <= j < n ==> has_commands_schema(aggregate_commands_spec(al, cls, n), (#[trigger] al[j]).1),
    decreases n,
{
    if n > 0 {
        lemma_aggregate_commands_entries(app, al, cls, (n - 1) as nat);
        let k = n - 1;
        let prev = aggregate_commands_spec(al, cls, (n - 1) as nat);
        let r = aggregate_commands_spec(al, cls, n);
        lemma_listing_entry(app.aggregates, al, k);
        assert(is_listing(al[k].1.commands, cls[k]));
        law_commands_schema_lists(al[k].1, cls[k]);
        assert forall|j: int| 0 <= j < n implies has_commands_schema(r, (#[trigger] al[j]).1) by {
            if j < k {
                lemma_listing_entry(app.aggregates, al, j);
                assert(al[j].1.entity == al[j].0 && al[k].1.entity == al[k].0);
                assert(al[j].0 != al[k].0);
                if "Commands"@ + al[j].1.entity == "Commands"@ + al[k].1.entity {
                    assert(("Commands"@ + al[j].1.entity).skip(("Commands"@).len() as int) =~= al[j].1.entity);
                    assert(("Commands"@ + al[k].1.entity).skip(("Commands"@).len() as int) =~= al[k].1.entity);
                }
                assert(has_commands_schema(prev, al[j].1));
            }
        }
    }
}

/// The schemas of the commands of the aggregates hold, for every aggregate
/// of the application, under `Commands<entity>`, the schema that admits each
/// of its commands.
pub proof fn law_aggregate_commands_list(app: AppV, r: JFields)
    requires
        is_aggregate_commands(app, r),
        aggregates_keyed(app.aggregates),
    ensures
        forall|e: Seq<char>| #[trigger] app.aggregates.contains_key(e) ==> has_commands_schema(r, app.aggregates[e]),
{
    let (al, cls) = choose|al: Seq<(Seq<char>, AggregateV)>, cls: Seq<Seq<(Seq<char>, SchemaObjectV)>>|
        listings(app, al, cls) && r == aggregate_commands_spec(al, cls, al.len());
    lemma_aggregate_commands_entries(app, al, cls, al.len());
    assert forall|e: Seq<char>| #[trigger] app.aggregates.contains_key(e) implies has_commands_schema(r, app.aggregates[e]) by {
        let j = choose|j: int| 0 <= j < al.len() && al[j].0 == e;
        lemma_listing_entry(app.aggregates, al, j);
        assert(has_commands_schema(r, al[j].1));
    }
}

/// The schema of the events of the stream: its `anyOf` holds first one
/// reference per aggregate of the application, to the schema of its entity,
/// then one per command of the pairs, in their order.
pub open spec fn lists_stream_refs(r: JFields, app: AppV, pairs: Seq<(AggregateV, SchemaObjectV)>) -> bool {
    r.contains_key("Sse"@) && match r["Sse"@] {
        JVal::Obj(s) => s.contains_key("anyOf"@) && match s["anyOf"@] {
            JVal::Arr(items) => {
                &&& app.aggregates.dom().finite()
                &&& items.len() == app.aggregates.dom().len() + pairs.len()
                &&& forall|e: Seq<char>| #[trigger] app.aggregates.contains_key(e) ==> exists|i: int|
                    0 <= i < app.aggregates.dom().len() && items[i] == schema_ref_object("Entity"@ + app.aggregates[e].entity)
                &&& forall|i: int| 0 <= i < pairs.len() ==> items[app.aggregates.dom().len() + i]
                    == schema_ref_object("Command"@ + (#[trigger] pairs[i]).0.entity + pairs[i].1.name)
            },
            _ => false,
        },
        _ => false,
    }
}

/// The schema of the events of the stream refers to the entity of every
/// aggregate, once per aggregate, before the commands.
pub proof fn law_stream_refs(app: AppV, pairs: Seq<(AggregateV, SchemaObjectV)>, r: JFields)
    requires
        is_sse_schema(app, pairs, r),
    ensures
        lists_stream_refs(r, app, pairs),
{
    let al = choose|al: Seq<(Seq<char>, AggregateV)>|
        is_listing(app.aggregates, al)
            && r == obj_field("Sse"@, no_fields().insert("anyOf"@, JVal::Arr(aggregate_refs_spec(al) + command_refs_spec(pairs))));
    lemma_listing_len(app.aggregates, al);
    reveal_strlit("#/components/schemas/");
    reveal_strlit("#/components/schemas/Entity");
    reveal_strlit("Entity");
    reveal_strlit("Command");
    let items = aggregate_refs_spec(al) + command_refs_spec(pairs);
    assert("#/components/schemas/Entity"@ =~= "#/components/schemas/"@ + "Entity"@);
    assert forall|e: Seq<char>| #[trigger] app.aggregates.contains_key(e) implies exists|i: int|
        0 <= i < app.aggregates.dom().len() && items[i] == schema_ref_object("Entity"@ + app.aggregates[e].entity) by {
        let j = choose|j: int| 0 <= j < al.len() && al[j].0 == e;
        lemma_listing_entry(app.aggregates, al, j);
        assert(entity_ref_spec(al[j].1.entity) =~= "#/components/schemas/"@ + ("Entity"@ + al[j].1.entity));
        assert(items[j] == schema_ref_object("Entity"@ + app.aggregates[e].entity));
    }
    assert forall|i: int| 0 <= i < pairs.len() implies items[app.aggregates.dom().len() + i]
        == schema_ref_object("Command"@ + (#[trigger] pairs[i]).0.entity + pairs[i].1.name) by {
        assert(items[al.len() + i] == command_refs_spec(pairs)[i]);
        assert("#/components/schemas/"@ + ("Command"@ + pairs[i].0.entity + pairs[i].1.name)
            =~= "#/components/schemas/"@ + command_name_spec(pairs[i].0, pairs[i].1));
    }
}

/// Putting the application in the template keeps every other field of the
/// template and of its `info`, and sets the title and the version.
pub proof fn law_merge_info(template: JFields, app: AppV)
    ensures
        forall|k: Seq<char>| k != "info"@ ==> (#[trigger] merge_info_spec(template, app).contains_key(k) == template.contains_key(k)
            && (template.contains_key(k) ==> merge_info_spec(template, app)[k] == template[k])),
        merge_info_spec(template, app)["info"@] == JVal::Obj(
            info_of(template).insert("title"@, JVal::Str(app.name)).insert("version"@, JVal::Str(app.version)),
        ),
{
}

/// Every aggregate gets its paths: the one that searches its instances, and
/// the one that fetches an instance or posts a command to it.
pub proof fn law_http_paths_cover(app: AppV, al: Seq<(Seq<char>, AggregateV)>)
    ensures
        forall|i: int| 0 <= i < al.len() ==> http_paths_spec(app, al).contains_key(base_path(app, (#[trigger] al[i]).1))
            && http_paths_spec(app, al).contains_key(base_path(app, al[i].1) + "/{id}"@),
    decreases al.len(),
{
    if al.len() > 0 {
        law_http_paths_cover(app, al.drop_last());
        assert forall|i: int| 0 <= i < al.len() implies http_paths_spec(app, al).contains_key(base_path(app, (#[trigger] al[i]).1))
            && http_paths_spec(app, al).contains_key(base_path(app, al[i].1) + "/{id}"@) by {
            if i < al.len() - 1 {
                assert(al.drop_last()[i] == al[i]);
            }
        }
    }
}

/// The schemas of the commands with refusals are under the same names as
/// those without, and each is the one without with the properties of a
/// refusal added. `generate` builds both specifications from the same pairs,
/// so this relates the command schemas of `sse.yaml` to those of
/// `http.yaml`.
pub proof fn law_command_schemas_refusals(app: AppV, pairs: Seq<(AggregateV, SchemaObjectV)>)
    ensures
        command_schemas_spec(app, true, pairs).dom() == command_schemas_spec(app, false, pairs).dom(),
        forall|k: Seq<char>| #[trigger] command_schemas_spec(app, false, pairs).contains_key(k)
            ==> (command_schemas_spec(app, false, pairs)[k] matches JVal::Obj(s)
                && command_schemas_spec(app, true, pairs)[k] == JVal::Obj(with_refusal(s))),
    decreases pairs.len(),
{
    if pairs.len() > 0 {
        law_command_schemas_refusals(app, pairs.drop_last());
        let t = command_schemas_spec(app, true, pairs);
        let f = command_schemas_spec(app, false, pairs);
        assert(t.dom() =~= f.dom());
    } else {
        assert(command_schemas_spec(app, true, pairs).dom() =~= command_schemas_spec(app, false, pairs).dom());
    }
}

/// A command of an aggregate of the application, with its aggregate.
pub open spec fn app_pair(app: AppV, p: (AggregateV, SchemaObjectV)) -> bool {
    exists|e: Seq<char>, c: Seq<char>|
        app.aggregates.contains_key(e) && p.0 == #[trigger] app.aggregates[e] && p.0.commands.contains_key(c)
            && p.1 == #[trigger] p.0.commands[c]
}

/// No two commands of the application get their schema under the same
/// name.
pub open spec fn command_names_distinct(app: AppV) -> bool {
    forall|p1: (AggregateV, SchemaObjectV), p2: (AggregateV, SchemaObjectV)|
        app_pair(app, p1) && app_pair(app, p2) && #[trigger] command_name_spec(p1.0, p1.1) == #[trigger] command_name_spec(p2.0, p2.1)
            ==> p1 == p2
}

proof fn lemma_flatten_members(
    app: AppV,
    al: Seq<(Seq<char>, AggregateV)>,
    cls: Seq<Seq<(Seq<char>, SchemaObjectV)>>,
    n: nat,
)
    requires
        listings(app, al, cls),
        n <= al.len(),
    ensures
        forall|i: int| 0 <= i < flatten_spec(al, cls, n).len() ==> app_pair(app, #[trigger] flatten_spec(al, cls, n)[i]),
    decreases n,
{
    if n > 0 {
        lemma_flatten_members(app, al, cls, (n - 1) as nat);
        let prev = flatten_spec(al, cls, (n - 1) as nat);
        let k = n - 1;
        let tail = Seq::new(cls[k].len(), |j: int| (al[k].1, cls[k][j].1));
        let all = flatten_spec(al, cls, n);
        assert(all == prev + tail);
        assert(0 <= k < al.len());
        lemma_listing_entry(app.aggregates, al, k);
        assert(is_listing(al[k].1.commands, cls[k]));
        assert forall|i: int| 0 <= i < all.len() implies app_pair(app, #[trigger] all[i]) by {
            if i < prev.len() {
                assert(all[i] == prev[i]);
            } else {
                let j = i - prev.len();
                assert(all[i] == tail[j]);
                lemma_listing_entry(al[k].1.commands, cls[k], j);
                let e = al[k].0;
                let c = cls[k][j].0;
                assert(app.aggregates.contains_key(e) && all[i].0 == app.aggregates[e] && all[i].0.commands.contains_key(c)
                    && all[i].1 == all[i].0.commands[c]);
            }
        }
    }
}

/// A flattening of fewer aggregates is the beginning of one of more.
proof fn lemma_flatten_grows(
    al: Seq<(Seq<char>, AggregateV)>,
    cls: Seq<Seq<(Seq<char>, SchemaObjectV)>>,
    m: nat,
    n: nat,
)
    requires
        m <= n,
    ensures
        flatten_spec(al, cls, m).len() <= flatten_spec(al, cls, n).len(),
        forall|x: int| 0 <= x < flatten_spec(al, cls, m).len() ==> #[trigger] flatten_spec(al, cls, n)[x] == flatten_spec(al, cls, m)[x],
    decreases n,
{
    if m < n {
        lemma_flatten_grows(al, cls, m, (n - 1) as nat);
        let prev = flatten_spec(al, cls, (n - 1) as nat);
        let tail = Seq::new(cls[n - 1].len(), |j: int| (al[n - 1].1, cls[n - 1][j].1));
        assert(flatten_spec(al, cls, n) == prev + tail);
        assert forall|x: int| 0 <= x < flatten_spec(al, cls, m).len() implies #[trigger] flatten_spec(al, cls, n)[x] == flatten_spec(al, cls, m)[x] by {
            assert(flatten_spec(al, cls, n)[x] == prev[x]);
        }
    }
}

/// Every command of the application is in a flattening, and a flattening
/// holds nothing else.
proof fn lemma_flattening_pairs(app: AppV, pairs: Seq<(AggregateV, SchemaObjectV)>)
    requires
        is_flattening(app, pairs),
    ensures
        forall|i: int| 0 <= i < pairs.len() ==> app_pair(app, #[trigger] pairs[i]),
        forall|p: (AggregateV, SchemaObjectV)| #[trigger] app_pair(app, p) ==> exists|x: int| 0 <= x < pairs.len() && pairs[x] == p,
{
    let (al, cls) = choose|al: Seq<(Seq<char>, AggregateV)>, cls: Seq<Seq<(Seq<char>, SchemaObjectV)>>|
        listings(app, al, cls) && pairs == flatten_spec(al, cls, al.len());
    lemma_flatten_members(app, al, cls, al.len());
    assert forall|p: (AggregateV, SchemaObjectV)| #[trigger] app_pair(app, p) implies exists|x: int| 0 <= x < pairs.len() && pairs[x] == p by {
        let (e, c) = choose|e: Seq<char>, c: Seq<char>|
            app.aggregates.contains_key(e) && p.0 == #[trigger] app.aggregates[e] && p.0.commands.contains_key(c)
                && p.1 == #[trigger] p.0.commands[c];
        let j = choose|j: int| 0 <= j < al.len() && al[j].0 == e;
        assert(app.aggregates.contains_key(al[j].0) && app.aggregates[al[j].0] == al[j].1);
        assert(is_listing(al[j].1.commands, cls[j]));
        let i = choose|i: int| 0 <= i < cls[j].len() && cls[j][i].0 == c;
        assert(al[j].1.commands.contains_key(cls[j][i].0) && al[j].1.commands[cls[j][i].0] == cls[j][i].1);
        assert(p == (al[j].1, cls[j][i].1));
        lemma_flatten_grows(al, cls, (j + 1) as nat, al.len());
        let before = flatten_spec(al, cls, j as nat);
        let tail = Seq::new(cls[j].len(), |t: int| (al[j].1, cls[j][t].1));
        assert(flatten_spec(al, cls, (j + 1) as nat) == before + tail);
        let x = before.len() + i;
        assert(flatten_spec(al, cls, (j + 1) as nat)[x] == tail[i]);
        assert(pairs[x] == flatten_spec(al, cls, (j + 1) as nat)[x]);
    }
}

/// The names of the command schemas are those of the pairs, and where no two
/// pairs share a name, each schema is that of its pair.
proof fn lemma_command_schemas_entries(app: AppV, with_errors: bool, pairs: Seq<(AggregateV, SchemaObjectV)>)
    ensures
        forall|k: Seq<char>| #[trigger] command_schemas_spec(app, with_errors, pairs).contains_key(k)
            <==> exists|i: int| 0 <= i < pairs.len() && command_name_spec(pairs[i].0, pairs[i].1) == k,
        (forall|i: int, j: int| 0 <= i < pairs.len() && 0 <= j < pairs.len()
            && #[trigger] command_name_spec(pairs[i].0, pairs[i].1) == #[trigger] command_name_spec(pairs[j].0, pairs[j].1)
            ==> pairs[i] == pairs[j]) ==> forall|i: int| 0 <= i < pairs.len()
            ==> command_schemas_spec(app, with_errors, pairs)[command_name_spec((#[trigger] pairs[i]).0, pairs[i].1)]
                == JVal::Obj(command_entry_schema(pairs[i].1, app, pairs[i].0, with_errors)),
    decreases pairs.len(),
{
    if pairs.len() > 0 {
        let d = pairs.drop_last();
        lemma_command_schemas_entries(app, with_errors, d);
        let m = command_schemas_spec(app, with_errors, pairs);
        let last = pairs.last();
        assert forall|k: Seq<char>| #[trigger] m.contains_key(k)
            <==> exists|i: int| 0 <= i < pairs.len() && command_name_spec(pairs[i].0, pairs[i].1) == k by {
            if m.contains_key(k) && k != command_name_spec(last.0, last.1) {
                let i = choose|i: int| 0 <= i < d.len() && command_name_spec(d[i].0, d[i].1) == k;
                assert(pairs[i] == d[i]);
            }
            if m.contains_key(k) && k == command_name_spec(last.0, last.1) {
                assert(pairs[pairs.len() - 1] == last);
            }
            if exists|i: int| 0 <= i < pairs.len() && command_name_spec(pairs[i].0, pairs[i].1) == k {
                let i = choose|i: int| 0 <= i < pairs.len() && command_name_spec(pairs[i].0, pairs[i].1) == k;
                if i < d.len() {
                    assert(d[i] == pairs[i]);
                }
            }
        }
        if forall|i: int, j: int| 0 <= i < pairs.len() && 0 <= j < pairs.len()
            && #[trigger] command_name_spec(pairs[i].0, pairs[i].1) == #[trigger] command_name_spec(pairs[j].0, pairs[j].1)
            ==> pairs[i] == pairs[j] {
            assert forall|i: int, j: int| 0 <= i < d.len() && 0 <= j < d.len()
                && #[trigger] command_name_spec(d[i].0, d[i].1) == #[trigger] command_name_spec(d[j].0, d[j].1)
                implies d[i] == d[j] by {
                assert(d[i] == pairs[i] && d[j] == pairs[j]);
            }
            assert forall|i: int| 0 <= i < pairs.len() implies
                m[command_name_spec((#[trigger] pairs[i]).0, pairs[i].1)] == JVal::Obj(command_entry_schema(pairs[i].1, app, pairs[i].0, with_errors)) by {
                let n = pairs.len() - 1;
                assert(pairs[n] == last);
                if i < n {
                    assert(d[i] == pairs[i]);
                    if command_name_spec(pairs[i].0, pairs[i].1) == command_name_spec(pairs[n].0, pairs[n].1) {
                        assert(pairs[i] == pairs[n]);
                    }
                }
            }
        }
    }
}

/// Where no two commands of the application get their schema under the same
/// name, the command schemas do not depend on the order in which the hash
/// maps are visited: any two flattenings give the same.
pub proof fn law_command_schemas_order(
    app: AppV,
    with_errors: bool,
    p1: Seq<(AggregateV, SchemaObjectV)>,
    p2: Seq<(AggregateV, SchemaObjectV)>,
)
    requires
        is_flattening(app, p1),
        is_flattening(app, p2),
        command_names_distinct(app),
    ensures
        command_schemas_spec(app, with_errors, p1) == command_schemas_spec(app, with_errors, p2),
{
    lemma_flattening_pairs(app, p1);
    lemma_flattening_pairs(app, p2);
    lemma_command_schemas_entries(app, with_errors, p1);
    lemma_command_schemas_entries(app, with_errors, p2);
    let m1 = command_schemas_spec(app, with_errors, p1);
    let m2 = command_schemas_spec(app, with_errors, p2);
    assert forall|i: int, j: int| 0 <= i < p1.len() && 0 <= j < p1.len()
        && #[trigger] command_name_spec(p1[i].0, p1[i].1) == #[trigger] command_name_spec(p1[j].0, p1[j].1) implies p1[i] == p1[j] by {
        assert(app_pair(app, p1[i]) && app_pair(app, p1[j]));
    }
    assert forall|i: int, j: int| 0 <= i < p2.len() && 0 <= j < p2.len()
        && #[trigger] command_name_spec(p2[i].0, p2[i].1) == #[trigger] command_name_spec(p2[j].0, p2[j].1) implies p2[i] == p2[j] by {
        assert(app_pair(app, p2[i]) && app_pair(app, p2[j]));
    }
    assert forall|k: Seq<char>| #[trigger] m1.contains_key(k) implies m2.contains_key(k) && m1[k] == m2[k] by {
        let i = choose|i: int| 0 <= i < p1.len() && command_name_spec(p1[i].0, p1[i].1) == k;
        assert(app_pair(app, p1[i]));
        let x = choose|x: int| 0 <= x < p2.len() && p2[x] == p1[i];
        assert(command_name_spec(p2[x].0, p2[x].1) == k);
        assert(m1[command_name_spec(p1[i].0, p1[i].1)] == JVal::Obj(command_entry_schema(p1[i].1, app, p1[i].0, with_errors)));
        assert(m2[command_name_spec(p2[x].0, p2[x].1)] == JVal::Obj(command_entry_schema(p2[x].1, app, p2[x].0, with_errors)));
    }
    assert forall|k: Seq<char>| #[trigger] m2.contains_key(k) implies m1.contains_key(k) by {
        let i = choose|i: int| 0 <= i < p2.len() && command_name_spec(p2[i].0, p2[i].1) == k;
        assert(app_pair(app, p2[i]));
        let x = choose|x: int| 0 <= x < p1.len() && p1[x] == p2[i];
        assert(command_name_spec(p1[x].0, p1[x].1) == k);
    }
    assert(m1 =~= m2);
}

/// Every command gets a schema, under `Command<entity><name>`.
pub proof fn law_command_schemas_cover(app: AppV, with_errors: bool, pairs: Seq<(AggregateV, SchemaObjectV)>)
    ensures
        forall|i: int| 0 <= i < pairs.len() ==> command_schemas_spec(app, with_errors, pairs).contains_key(
            command_name_spec((#[trigger] pairs[i]).0, pairs[i].1),
        ),
    decreases pairs.len(),
{
    if pairs.len() > 0 {
        law_command_schemas_cover(app, with_errors, pairs.drop_last());
        assert forall|i: int| 0 <= i < pairs.len() implies command_schemas_spec(app, with_errors, pairs).contains_key(
            command_name_spec((#[trigger] pairs[i]).0, pairs[i].1),
        ) by {
            if i < pairs.len() - 1 {
                assert(pairs.drop_last()[i] == pairs[i]);
            }
        }
    }
}

} // verus!
