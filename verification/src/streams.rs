//! The generator of JSON Streams applications: one part per aggregate, with a
//! reducer and a validator per command, and the application that lists the
//! parts.
use vstd::prelude::*;
use crate::collections::{
    ObjectList, aggregate_entry_views, aggregate_map_entries, field_list_items, field_views,
    object_items, object_list_append, object_list_items, object_list_new, object_list_push,
    object_views, schema_entry_views, schema_map_entries, schema_map_get, schema_map_len,
};
use crate::common::{Content, ContentV, FileV, OutputFile, file_views};
use crate::json::{
    JFields, JVal, add_array, add_bool, add_object, add_string, array_add_object, array_add_string,
    array_items, array_new, array_value, is_listing, lemma_listing_entry, lemma_listing_exists, no_fields, no_items,
    object_fields, object_new, object_value,
};
use crate::model::{
    Aggregate, AggregateV, App, AppV, Field, FieldV, Related, RelatedV, SchemaObject, SchemaObjectV,
    aggregates_keyed, copy_opt_text, copy_related, keyed_by_name, lemma_stuck_prefix, listings, text_views,
};
use crate::text::{concat, concat3, lowercase, text_eq, to_lowercase, to_uppercase, uppercase};
use immutable_json::array::Array;
use immutable_json::object::Object;

verus! {

/// The field with its name put under a prefix: `<prefix>.<name>`.
pub open spec fn prefixed(field: FieldV, prefix: Seq<char>) -> FieldV {
    FieldV { name: prefix + "."@ + field.name, ..field }
}

/// Puts the name of a field under a prefix, which is the name of the field
/// whose object it belongs to.
pub fn add_prefix(field: &Field, prefix: &str) -> (res: Field)
    ensures
        res@ == prefixed(field@, prefix@),
{
    let related = copy_related(&field.related);
    let res = Field {
        name: concat3(prefix, ".", field.name.as_str()),
        data_type: field.data_type.clone(),
        description: copy_opt_text(&field.description),
        related,
        required: field.required,
    };
    proof {
        assert(res@.related == field@.related);
    }
    res
}

/// The type that a validator checks for a data type of the model.
pub open spec fn converted_type(data_type: Seq<char>) -> Seq<char> {
    if data_type == "array"@ {
        "array"@
    } else if data_type == "boolean"@ {
        "bool"@
    } else if data_type == "number"@ {
        "decimal"@
    } else if data_type == "object"@ {
        "object"@
    } else if data_type == "string"@ {
        "string"@
    } else {
        "unknown"@
    }
}

/// Maps a data type of the model to the type that a validator checks:
/// `array`, `bool`, `decimal`, `object` or `string`, and `unknown` for any
/// other.
pub fn convert_data_type(data_type: &str) -> (res: &'static str)
    ensures
        res@ == converted_type(data_type@),
{
    if text_eq(data_type, "array") {
        "array"
    } else if text_eq(data_type, "boolean") {
        "bool"
    } else if text_eq(data_type, "number") {
        "decimal"
    } else if text_eq(data_type, "object") {
        "object"
    } else if text_eq(data_type, "string") {
        "string"
    } else {
        "unknown"
    }
}

/// The condition that a field has the type that its data type demands.
pub open spec fn type_condition_spec(field: FieldV) -> JFields {
    no_fields().insert(
        field.name,
        JVal::Obj(
            no_fields().insert("$type"@, JVal::Str(converted_type(field.data_type))).insert(
                "$code"@,
                JVal::Str(uppercase(converted_type(field.data_type))),
            ),
        ),
    )
}

fn type_condition(field: &Field) -> (res: Object)
    ensures
        object_fields(res) == type_condition_spec(field@),
{
    let converted_type = convert_data_type(field.data_type.as_str());
    let code = to_uppercase(converted_type);
    let inner = add_string(&add_string(&object_new(), "$type", converted_type), "$code", code.as_str());
    add_object(&object_new(), field.name.as_str(), &inner)
}

/// The condition that a required field is present.
pub open spec fn required_condition_spec(field: FieldV) -> JFields {
    no_fields().insert(
        field.name,
        JVal::Obj(no_fields().insert("$exists"@, JVal::Bool(true)).insert("$code"@, JVal::Str("REQUIRED"@))),
    )
}

fn required_condition(field: &Field) -> (res: Object)
    ensures
        object_fields(res) == required_condition_spec(field@),
{
    let inner = add_string(&add_bool(&object_new(), "$exists", true), "$code", "REQUIRED");
    add_object(&object_new(), field.name.as_str(), &inner)
}

/// The entity or value object that a relation designates in the application.
pub open spec fn related_object(app: AppV, related: Option<RelatedV>) -> Option<SchemaObjectV> {
    match related {
        Some(RelatedV::Entity(e)) => if app.entities.contains_key(e) {
            Some(app.entities[e])
        } else {
            None
        },
        Some(RelatedV::ValueObject(v)) => if app.value_objects.contains_key(v) {
            Some(app.value_objects[v])
        } else {
            None
        },
        None => None,
    }
}

/// Whether the conditions of a field descend into the fields of the object
/// that it refers to: it refers to one, and it is not an array.
pub open spec fn descends(field: FieldV) -> bool {
    field.related is Some && field.data_type != "array"@
}

/// The conditions of a field: its type, its presence where it is required,
/// and the conditions of the fields of the object that it refers to, with
/// their names under its own. `None` where the nesting goes deeper than
/// `depth` levels.
pub open spec fn field_conditions(app: AppV, field: FieldV, depth: nat) -> Option<Seq<JFields>>
    decreases depth, 0nat, 0nat,
{
    if depth == 0 {
        None
    } else {
        let own = if field.required {
            seq![type_condition_spec(field), required_condition_spec(field)]
        } else {
            seq![type_condition_spec(field)]
        };
        if descends(field) {
            match sub_field_conditions(app, field, (depth - 1) as nat) {
                Some(sub) => Some(own + sub),
                None => None,
            }
        } else {
            Some(own)
        }
    }
}

/// The conditions of the fields of the object that a field refers to, none
/// where it refers to nothing that the application defines.
pub open spec fn sub_field_conditions(app: AppV, field: FieldV, depth: nat) -> Option<Seq<JFields>>
    decreases depth, 2nat, 0nat,
{
    match related_object(app, field.related) {
        Some(o) => prefixed_conditions(app, o.fields, field.name, depth),
        None => Some(Seq::empty()),
    }
}

/// The conditions of some fields put under a prefix, one after the other.
pub open spec fn prefixed_conditions(app: AppV, fields: Seq<FieldV>, prefix: Seq<char>, depth: nat) -> Option<Seq<JFields>>
    decreases depth, 1nat, fields.len(),
{
    if fields.len() == 0 {
        Some(Seq::empty())
    } else {
        match prefixed_conditions(app, fields.drop_last(), prefix, depth) {
            Some(before) => match field_conditions(app, prefixed(fields.last(), prefix), depth) {
                Some(last) => Some(before + last),
                None => None,
            },
            None => None,
        }
    }
}

fn related_schema<'a>(app: &'a App, related: &Option<Related>) -> (res: Option<&'a SchemaObject>)
    ensures
        match res {
            Some(o) => related_object(app@, match *related {
                Some(r) => Some(r@),
                None => None,
            }) == Some(o@),
            None => related_object(app@, match *related {
                Some(r) => Some(r@),
                None => None,
            }) is None,
        },
{
    match related {
        Some(Related::Entity(e)) => schema_map_get(&app.entities, e),
        Some(Related::ValueObject(v)) => schema_map_get(&app.value_objects, v),
        None => None,
    }
}

/// The conditions of a field, as `field_conditions` states them.
fn create_field_conditions(app: &App, field: &Field, depth: usize) -> (res: Option<ObjectList>)
    ensures
        match res {
            Some(l) => field_conditions(app@, field@, depth as nat) == Some(object_items(l)),
            None => field_conditions(app@, field@, depth as nat) is None,
        },
    decreases depth, 0nat,
{
    if depth == 0 {
        return None;
    }
    let mut own = object_list_push(&object_list_new(), type_condition(field));
    if field.required {
        own = object_list_push(&own, required_condition(field));
    }
    proof {
        if field@.required {
            assert(object_items(own) =~= seq![type_condition_spec(field@), required_condition_spec(field@)]);
        } else {
            assert(object_items(own) =~= seq![type_condition_spec(field@)]);
        }
    }
    if field.related.is_some() && !text_eq(field.data_type.as_str(), "array") {
        match create_sub_field_conditions(app, field, depth - 1) {
            Some(sub) => Some(object_list_append(&own, &sub)),
            None => None,
        }
    } else {
        Some(own)
    }
}

/// The conditions of the fields of the object that a field refers to.
fn create_sub_field_conditions(app: &App, field: &Field, depth: usize) -> (res: Option<ObjectList>)
    ensures
        match res {
            Some(l) => sub_field_conditions(app@, field@, depth as nat) == Some(object_items(l)),
            None => sub_field_conditions(app@, field@, depth as nat) is None,
        },
    decreases depth, 2nat,
{
    let target = related_schema(app, &field.related);
    proof {
        assert(field@.related == match field.related {
            Some(r) => Some(r@),
            None => None::<RelatedV>,
        });
    }
    match target {
        None => {
            let empty = object_list_new();
            proof {
                assert(object_items(empty) =~= Seq::<JFields>::empty());
            }
            Some(empty)
        },
        Some(o) => {
            let fields = field_list_items(&o.fields);
            let ghost fs = field_views(fields@);
            let mut acc = object_list_new();
            proof {
                assert(fs.take(0) =~= Seq::<FieldV>::empty());
                assert(object_items(acc) =~= Seq::<JFields>::empty());
            }
            let mut i: usize = 0;
            while i < fields.len()
                invariant
                    i <= fields@.len(),
                    fs == field_views(fields@),
                    fs == o@.fields,
                    related_object(app@, field@.related) == Some(o@),
                    prefixed_conditions(app@, fs.take(i as int), field@.name, depth as nat) == Some(object_items(acc)),
                decreases fields@.len() - i,
            {
                proof {
                    assert(fs.take(i + 1).drop_last() =~= fs.take(i as int));
                    assert(fs.take(i + 1).last() == fields@[i as int]@);
                }
                let p = add_prefix(&fields[i], field.name.as_str());
                match create_field_conditions(app, &p, depth) {
                    Some(c) => {
                        acc = object_list_append(&acc, &c);
                    },
                    None => {
                        proof {
                            assert(prefixed(fs.take(i + 1).last(), field@.name) == p@);
                            assert(prefixed_conditions(app@, fs.take(i + 1), field@.name, depth as nat) is None);
                            lemma_stuck_prefix(
                                |t: Seq<FieldV>| prefixed_conditions(app@, t, field@.name, depth as nat),
                                |r: Option<Seq<JFields>>| r is None,
                                fs,
                                i as int + 1,
                            );
                        }
                        return None;
                    },
                }
                i = i + 1;
            }
            proof {
                assert(fs.take(fields@.len() as int) =~= fs);
            }
            Some(acc)
        },
    }
}


/// The conditions of some fields, one after the other.
pub open spec fn conditions_of(app: AppV, fields: Seq<FieldV>, depth: nat) -> Option<Seq<JFields>>
    decreases fields.len(),
{
    if fields.len() == 0 {
        Some(Seq::empty())
    } else {
        match conditions_of(app, fields.drop_last(), depth) {
            Some(before) => match field_conditions(app, fields.last(), depth) {
                Some(last) => Some(before + last),
                None => None,
            },
            None => None,
        }
    }
}

/// Objects as JSON values.
pub open spec fn objects_array(objects: Seq<JFields>) -> Seq<JVal> {
    Seq::new(objects.len(), |i: int| JVal::Obj(objects[i]))
}


/// The conditions of all the fields of a command, as an array.
fn create_conditions(app: &App, command: &SchemaObject, depth: usize) -> (res: Option<Array>)
    ensures
        match res {
            Some(a) => conditions_of(app@, command@.fields, depth as nat) matches Some(cs) && array_items(a) == objects_array(cs),
            None => conditions_of(app@, command@.fields, depth as nat) is None,
        },
{
    let fields = field_list_items(&command.fields);
    let ghost fs = field_views(fields@);
    let mut array = array_new();
    let ghost mut done: Seq<JFields> = Seq::empty();
    proof {
        assert(fs.take(0) =~= Seq::<FieldV>::empty());
        assert(array_items(array) =~= objects_array(done));
    }
    let mut i: usize = 0;
    while i < fields.len()
        invariant
            i <= fields@.len(),
            fs == field_views(fields@),
            fs == command@.fields,
            conditions_of(app@, fs.take(i as int), depth as nat) == Some(done),
            array_items(array) == objects_array(done),
        decreases fields@.len() - i,
    {
        proof {
            assert(fs.take(i + 1).drop_last() =~= fs.take(i as int));
            assert(fs.take(i + 1).last() == fields@[i as int]@);
        }
        match create_field_conditions(app, &fields[i], depth) {
            Some(list) => {
                let objects = object_list_items(&list);
                let mut j: usize = 0;
                let ghost before = done;
                while j < objects.len()
                    invariant
                        j <= objects@.len(),
                        object_views(objects@) == object_items(list),
                        done == before + object_items(list).take(j as int),
                        array_items(array) == objects_array(done),
                    decreases objects@.len() - j,
                {
                    array = array_add_object(&array, &objects[j]);
                    proof {
                        assert(object_items(list).take(j + 1) =~= object_items(list).take(j as int).push(object_views(objects@)[j as int]));
                        done = done.push(object_fields(objects@[j as int]));
                        assert(array_items(array) =~= objects_array(done));
                    }
                    j = j + 1;
                }
                proof {
                    assert(object_items(list).take(objects@.len() as int) =~= object_items(list));
                }
            },
            None => {
                proof {
                    lemma_stuck_prefix(
                        |t: Seq<FieldV>| conditions_of(app@, t, depth as nat),
                        |r: Option<Seq<JFields>>| r is None,
                        fs,
                        i as int + 1,
                    );
                }
                return None;
            },
        }
        i = i + 1;
    }
    proof {
        assert(fs.take(fields@.len() as int) =~= fs);
    }
    Some(array)
}

/// The validator of a command: the conditions of its fields.
pub open spec fn validator_spec(app: AppV, command: SchemaObjectV, depth: nat) -> Option<JFields> {
    match conditions_of(app, command.fields, depth) {
        Some(cs) => Some(no_fields().insert("conditions"@, JVal::Arr(objects_array(cs)))),
        None => None,
    }
}

fn create_validator(command: &SchemaObject, app: &App, depth: usize) -> (res: Option<Object>)
    ensures
        match res {
            Some(o) => validator_spec(app@, command@, depth as nat) == Some(object_fields(o)),
            None => validator_spec(app@, command@, depth as nat) is None,
        },
{
    match create_conditions(app, command, depth) {
        Some(a) => Some(add_array(&object_new(), "conditions", &a)),
        None => None,
    }
}

pub open spec fn reducer_file(name: Seq<char>) -> Seq<char> {
    "reducers/"@ + name + ".jq"@
}

pub open spec fn validator_file(name: Seq<char>) -> Seq<char> {
    "validators/"@ + name + ".yaml"@
}

/// The reducer that the generator writes for a command that has none.
pub open spec fn reducer_text() -> Seq<char> {
    ".state + (.command | del(._command) | del(._languages) | del(._seq))"@
}

/// The entry of a command in its aggregate: its reducer, its validator and
/// its description.
pub open spec fn command_entry(c: SchemaObjectV) -> JFields {
    let base = no_fields().insert("reducer"@, JVal::Str(reducer_file(c.name))).insert(
        "validator"@,
        JVal::Str(validator_file(c.name)),
    );
    match c.description {
        Some(d) => base.insert("description"@, JVal::Str(d)),
        None => base,
    }
}

/// Whether a file exists: it did before, or it is written before.
pub open spec fn present(existing: Seq<Seq<char>>, files: Seq<FileV>, name: Seq<char>) -> bool {
    existing.contains(name) || exists|i: int| 0 <= i < files.len() && #[trigger] files[i].name == name
}

/// The files written for a command: its reducer and its validator, each
/// where it does not exist yet or in mock mode.
pub open spec fn command_files(
    app: AppV,
    c: SchemaObjectV,
    depth: nat,
    mock_mode: bool,
    existing: Seq<Seq<char>>,
    files: Seq<FileV>,
) -> Option<Seq<FileV>> {
    let with_reducer = if mock_mode || !present(existing, files, reducer_file(c.name)) {
        files.push(FileV { name: reducer_file(c.name), content: ContentV::Text(reducer_text()) })
    } else {
        files
    };
    if mock_mode || !present(existing, with_reducer, validator_file(c.name)) {
        match validator_spec(app, c, depth) {
            Some(v) => Some(with_reducer.push(FileV { name: validator_file(c.name), content: ContentV::Yaml(JVal::Obj(v)) })),
            None => None,
        }
    } else {
        Some(with_reducer)
    }
}

fn is_present(existing: &Vec<String>, files: &Vec<OutputFile>, name: &String) -> (res: bool)
    ensures
        res == present(text_views(existing@), file_views(files@), name@),
{
    let mut i: usize = 0;
    while i < existing.len()
        invariant
            i <= existing@.len(),
            forall|j: int| 0 <= j < i ==> existing@[j]@ != name@,
        decreases existing@.len() - i,
    {
        if text_eq(existing[i].as_str(), name.as_str()) {
            proof {
                assert(text_views(existing@)[i as int] == name@);
            }
            return true;
        }
        i = i + 1;
    }
    proof {
        if text_views(existing@).contains(name@) {
            let j = choose|j: int| 0 <= j < text_views(existing@).len() && text_views(existing@)[j] == name@;
            assert(existing@[j]@ == name@);
        }
    }
    let mut k: usize = 0;
    while k < files.len()
        invariant
            k <= files@.len(),
            !text_views(existing@).contains(name@),
            forall|j: int| 0 <= j < k ==> files@[j].name@ != name@,
        decreases files@.len() - k,
    {
        if text_eq(files[k].name.as_str(), name.as_str()) {
            proof {
                assert(file_views(files@)[k as int].name == name@);
            }
            return true;
        }
        k = k + 1;
    }
    proof {
        if exists|i: int| 0 <= i < file_views(files@).len() && #[trigger] file_views(files@)[i].name == name@ {
            let j = choose|i: int| 0 <= i < file_views(files@).len() && #[trigger] file_views(files@)[i].name == name@;
            assert(files@[j].name@ == name@);
        }
    }
    false
}

/// Adds the files of a command, and gives its entry in its aggregate.
fn create_command(
    app: &App,
    command: &SchemaObject,
    depth: usize,
    mock_mode: bool,
    existing: &Vec<String>,
    files: &mut Vec<OutputFile>,
) -> (res: Option<Object>)
    ensures
        match command_files(app@, command@, depth as nat, mock_mode, text_views(existing@), file_views(old(files)@)) {
            Some(fs) => res matches Some(o) && file_views(final(files)@) == fs && object_fields(o) == command_entry(command@),
            None => res is None,
        },
{
    let reducer_filename = concat3("reducers/", command.name.as_str(), ".jq");
    let validator_filename = concat3("validators/", command.name.as_str(), ".yaml");
    let ghost start = file_views(files@);
    if mock_mode || !is_present(existing, files, &reducer_filename) {
        files.push(OutputFile {
            name: reducer_filename.clone(),
            content: Content::Text(String::from_str(".state + (.command | del(._command) | del(._languages) | del(._seq))")),
        });
        proof {
            assert(file_views(files@) =~= start.push(FileV { name: reducer_file(command@.name), content: ContentV::Text(reducer_text()) }));
        }
    }
    let ghost with_reducer = file_views(files@);
    if mock_mode || !is_present(existing, files, &validator_filename) {
        match create_validator(command, app, depth) {
            Some(v) => {
                files.push(OutputFile { name: validator_filename.clone(), content: Content::Yaml(object_value(&v)) });
                proof {
                    assert(file_views(files@) =~= with_reducer.push(FileV { name: validator_file(command@.name), content: ContentV::Yaml(JVal::Obj(object_fields(v))) }));
                }
            },
            None => {
                return None;
            },
        }
    }
    let base = add_string(&add_string(&object_new(), "reducer", reducer_filename.as_str()), "validator", validator_filename.as_str());
    let entry = match &command.description {
        Some(d) => add_string(&base, "description", d.as_str()),
        None => base,
    };
    Some(entry)
}

/// The files of some commands, in order, and the object of their entries.
pub open spec fn commands_files(
    app: AppV,
    cl: Seq<(Seq<char>, SchemaObjectV)>,
    depth: nat,
    mock_mode: bool,
    existing: Seq<Seq<char>>,
    files: Seq<FileV>,
) -> Option<(Seq<FileV>, JFields)>
    decreases cl.len(),
{
    if cl.len() == 0 {
        Some((files, no_fields()))
    } else {
        match commands_files(app, cl.drop_last(), depth, mock_mode, existing, files) {
            Some((fs, entries)) => match command_files(app, cl.last().1, depth, mock_mode, existing, fs) {
                Some(fs2) => Some((fs2, entries.insert(cl.last().1.name, JVal::Obj(command_entry(cl.last().1))))),
                None => None,
            },
            None => None,
        }
    }
}

/// The name of an aggregate in the application: its entity in lower case.
pub open spec fn aggregate_name(a: AggregateV) -> Seq<char> {
    lowercase(a.entity)
}

pub open spec fn aggregate_file(a: AggregateV) -> Seq<char> {
    aggregate_name(a) + "/"@ + aggregate_name(a) + ".yaml"@
}

/// The description of the entity of an aggregate, where it has one.
pub open spec fn aggregate_description(app: AppV, a: AggregateV) -> Option<Seq<char>> {
    if app.entities.contains_key(a.entity) {
        app.entities[a.entity].description
    } else {
        None
    }
}

/// The part that describes an aggregate.
pub open spec fn aggregate_doc(app: AppV, a: AggregateV, commands: JFields) -> JFields {
    let base = no_fields().insert("type"@, JVal::Str("aggregate"@)).insert("name"@, JVal::Str(aggregate_name(a))).insert(
        "aggregateType"@,
        JVal::Str(lowercase(app.name + "-"@ + aggregate_name(a))),
    ).insert("commands"@, JVal::Obj(commands));
    match aggregate_description(app, a) {
        Some(d) => base.insert("description"@, JVal::Str(d)),
        None => base,
    }
}

/// The name of an aggregate in the application.
pub fn name(aggregate: &Aggregate) -> (res: String)
    ensures
        res@ == aggregate_name(aggregate@),
{
    to_lowercase(aggregate.entity.as_str())
}

/// The files of an aggregate: those of its commands, then its part.
pub open spec fn aggregate_files(
    app: AppV,
    a: AggregateV,
    cl: Seq<(Seq<char>, SchemaObjectV)>,
    depth: nat,
    mock_mode: bool,
    existing: Seq<Seq<char>>,
    files: Seq<FileV>,
) -> Option<Seq<FileV>> {
    match commands_files(app, cl, depth, mock_mode, existing, files) {
        Some((fs, entries)) => Some(fs.push(FileV { name: aggregate_file(a), content: ContentV::Yaml(JVal::Obj(aggregate_doc(app, a, entries))) })),
        None => None,
    }
}


/// Adds the files of the commands of an aggregate, and gives the object of
/// their entries. The commands are taken in the order of the hash map that
/// holds them.
fn create_commands(
    app: &App,
    aggregate: &Aggregate,
    depth: usize,
    mock_mode: bool,
    existing: &Vec<String>,
    files: &mut Vec<OutputFile>,
) -> (res: Option<Object>)
    ensures
        exists|cl: Seq<(Seq<char>, SchemaObjectV)>|
            is_listing(aggregate@.commands, cl) && match commands_files(app@, cl, depth as nat, mock_mode, text_views(existing@), file_views(old(files)@)) {
                Some((fs, entries)) => res matches Some(o) && file_views(final(files)@) == fs && object_fields(o) == entries,
                None => res is None,
            },
{
    let entries = schema_map_entries(&aggregate.commands);
    let ghost cl = schema_entry_views(entries@);
    let ghost start = file_views(files@);
    let mut commands = object_new();
    proof {
        assert(cl.take(0) =~= Seq::<(Seq<char>, SchemaObjectV)>::empty());
        assert(object_fields(commands) =~= no_fields());
    }
    let mut i: usize = 0;
    while i < entries.len()
        invariant
            i <= entries@.len(),
            cl == schema_entry_views(entries@),
            is_listing(aggregate@.commands, cl),
            start == file_views(old(files)@),
            commands_files(app@, cl.take(i as int), depth as nat, mock_mode, text_views(existing@), start)
                == Some((file_views(files@), object_fields(commands))),
        decreases entries@.len() - i,
    {
        proof {
            assert(cl.take(i + 1).drop_last() =~= cl.take(i as int));
            assert(cl.take(i + 1).last().1 == entries@[i as int].1@);
        }
        let command = &entries[i].1;
        match create_command(app, command, depth, mock_mode, existing, files) {
            Some(entry) => {
                commands = add_object(&commands, command.name.as_str(), &entry);
            },
            None => {
                proof {
                    lemma_stuck_prefix(
                        |t: Seq<(Seq<char>, SchemaObjectV)>| commands_files(app@, t, depth as nat, mock_mode, text_views(existing@), start),
                        |r: Option<(Seq<FileV>, JFields)>| r is None,
                        cl,
                        i as int + 1,
                    );
                    assert(is_listing(aggregate@.commands, cl));
                }
                return None;
            },
        }
        i = i + 1;
    }
    proof {
        assert(cl.take(entries@.len() as int) =~= cl);
    }
    Some(commands)
}

/// Adds the files of an aggregate, and gives the name of its part.
fn create_aggregate(
    app: &App,
    aggregate: &Aggregate,
    depth: usize,
    mock_mode: bool,
    existing: &Vec<String>,
    files: &mut Vec<OutputFile>,
) -> (res: Option<String>)
    ensures
        exists|cl: Seq<(Seq<char>, SchemaObjectV)>|
            is_listing(aggregate@.commands, cl) && match aggregate_files(app@, aggregate@, cl, depth as nat, mock_mode, text_views(existing@), file_views(old(files)@)) {
                Some(fs) => res matches Some(f) && file_views(final(files)@) == fs && f@ == aggregate_file(aggregate@),
                None => res is None,
            },
{
    let name = name(aggregate);
    let ghost start = file_views(files@);
    let created = create_commands(app, aggregate, depth, mock_mode, existing, files);
    let ghost cl = choose|cl: Seq<(Seq<char>, SchemaObjectV)>|
        is_listing(aggregate@.commands, cl) && match commands_files(app@, cl, depth as nat, mock_mode, text_views(existing@), start) {
            Some((fs, entries)) => created matches Some(o) && file_views(files@) == fs && object_fields(o) == entries,
            None => created is None,
        };
    let commands = match created {
        Some(c) => c,
        None => {
            proof {
                assert(aggregate_files(app@, aggregate@, cl, depth as nat, mock_mode, text_views(existing@), start) is None);
            }
            return None;
        },
    };
    let aggregate_type = to_lowercase(concat3(app.name.as_str(), "-", name.as_str()).as_str());
    let base = add_object(
        &add_string(&add_string(&add_string(&object_new(), "type", "aggregate"), "name", name.as_str()), "aggregateType", aggregate_type.as_str()),
        "commands",
        &commands,
    );
    let description = match schema_map_get(&app.entities, &aggregate.entity) {
        Some(e) => copy_opt_text(&e.description),
        None => None,
    };
    let generated = match description {
        Some(d) => add_string(&base, "description", d.as_str()),
        None => base,
    };
    let filename = concat3(name.as_str(), "/", concat(name.as_str(), ".yaml").as_str());
    files.push(OutputFile { name: filename.clone(), content: Content::Yaml(object_value(&generated)) });
    proof {
        assert(object_fields(generated) == aggregate_doc(app@, aggregate@, object_fields(commands)));
        assert(filename@ =~= aggregate_file(aggregate@));
        assert(file_views(files@) =~= aggregate_files(app@, aggregate@, cl, depth as nat, mock_mode, text_views(existing@), start)->Some_0);
    }
    Some(filename)
}

/// The files of the first `n` aggregates of a listing, whose commands are
/// taken in the orders `cls`, and the names of their parts.
pub open spec fn aggregates_upto(
    app: AppV,
    al: Seq<(Seq<char>, AggregateV)>,
    cls: Seq<Seq<(Seq<char>, SchemaObjectV)>>,
    n: nat,
    depth: nat,
    mock_mode: bool,
    existing: Seq<Seq<char>>,
) -> Option<(Seq<FileV>, Seq<JVal>)>
    decreases n,
{
    if n == 0 {
        Some((Seq::empty(), Seq::empty()))
    } else {
        match aggregates_upto(app, al, cls, (n - 1) as nat, depth, mock_mode, existing) {
            Some((fs, parts)) => match aggregate_files(app, al[n - 1].1, cls[n - 1], depth, mock_mode, existing, fs) {
                Some(fs2) => Some((fs2, parts.push(JVal::Str(aggregate_file(al[n - 1].1))))),
                None => None,
            },
            None => None,
        }
    }
}

pub open spec fn extra_parts_file() -> Seq<char> {
    "extra-parts.yaml"@
}

/// The application: its name in lower case, its version, and its parts.
pub open spec fn application_doc(app: AppV, parts: Seq<JVal>) -> JFields {
    no_fields().insert("application"@, JVal::Str(lowercase(app.name))).insert("version"@, JVal::Str(app.version)).insert(
        "parts"@,
        JVal::Arr(parts.push(JVal::Str(extra_parts_file()))),
    )
}

/// All the files of an application, in the order in which they are
/// written: those of each aggregate, the empty list of extra parts where
/// there is none yet, and the application.
pub open spec fn plan_spec(
    app: AppV,
    al: Seq<(Seq<char>, AggregateV)>,
    cls: Seq<Seq<(Seq<char>, SchemaObjectV)>>,
    depth: nat,
    mock_mode: bool,
    existing: Seq<Seq<char>>,
) -> Option<Seq<FileV>> {
    match aggregates_upto(app, al, cls, al.len(), depth, mock_mode, existing) {
        Some((fs, parts)) => {
            let with_extra = if present(existing, fs, extra_parts_file()) {
                fs
            } else {
                fs.push(FileV { name: extra_parts_file(), content: ContentV::Yaml(JVal::Arr(no_items())) })
            };
            Some(with_extra.push(FileV { name: "application.yaml"@, content: ContentV::Yaml(JVal::Obj(application_doc(app, parts))) }))
        },
        None => None,
    }
}

/// How deep the conditions of a validator may nest: one level more than
/// there are entities and value objects, so that only a relation that leads
/// back to where it started can exceed it.
pub open spec fn nesting_limit(app: AppV) -> nat {
    let n = app.entities.dom().len() + app.value_objects.dom().len() + 2;
    if n <= usize::MAX {
        n as nat
    } else {
        usize::MAX as nat
    }
}

proof fn lemma_aggregates_upto_prefix(
    app: AppV,
    al: Seq<(Seq<char>, AggregateV)>,
    cls1: Seq<Seq<(Seq<char>, SchemaObjectV)>>,
    cls2: Seq<Seq<(Seq<char>, SchemaObjectV)>>,
    n: nat,
    depth: nat,
    mock_mode: bool,
    existing: Seq<Seq<char>>,
)
    requires
        n <= cls1.len(),
        n <= cls2.len(),
        forall|j: int| 0 <= j < n ==> cls1[j] == cls2[j],
    ensures
        aggregates_upto(app, al, cls1, n, depth, mock_mode, existing) == aggregates_upto(app, al, cls2, n, depth, mock_mode, existing),
    decreases n,
{
    if n > 0 {
        lemma_aggregates_upto_prefix(app, al, cls1, cls2, (n - 1) as nat, depth, mock_mode, existing);
    }
}

proof fn lemma_aggregates_upto_none(
    app: AppV,
    al: Seq<(Seq<char>, AggregateV)>,
    cls: Seq<Seq<(Seq<char>, SchemaObjectV)>>,
    n: nat,
    m: nat,
    depth: nat,
    mock_mode: bool,
    existing: Seq<Seq<char>>,
)
    requires
        n <= m,
        aggregates_upto(app, al, cls, n, depth, mock_mode, existing) is None,
    ensures
        aggregates_upto(app, al, cls, m, depth, mock_mode, existing) is None,
    decreases m - n,
{
    if n < m {
        lemma_aggregates_upto_none(app, al, cls, n, (m - 1) as nat, depth, mock_mode, existing);
    }
}

/// Listings of the commands of the aggregates that follow those listed so
/// far, so that every aggregate has one.
proof fn extend_listings(
    al: Seq<(Seq<char>, AggregateV)>,
    partial: Seq<Seq<(Seq<char>, SchemaObjectV)>>,
) -> (full: Seq<Seq<(Seq<char>, SchemaObjectV)>>)
    requires
        partial.len() <= al.len(),
        forall|j: int| 0 <= j < partial.len() ==> is_listing(#[trigger] al[j].1.commands, partial[j]),
        forall|j: int| 0 <= j < al.len() ==> (#[trigger] al[j]).1.commands.dom().finite(),
    ensures
        full.len() == al.len(),
        forall|j: int| 0 <= j < partial.len() ==> full[j] == partial[j],
        forall|j: int| 0 <= j < al.len() ==> is_listing(#[trigger] al[j].1.commands, full[j]),
    decreases al.len() - partial.len(),
{
    if partial.len() == al.len() {
        partial
    } else {
        let k = partial.len() as int;
        assert(al[k].1.commands.dom().finite());
        lemma_listing_exists(al[k].1.commands);
        let l = choose|l: Seq<(Seq<char>, SchemaObjectV)>| is_listing(al[k].1.commands, l);
        let next = partial.push(l);
        assert forall|j: int| 0 <= j < next.len() implies is_listing(#[trigger] al[j].1.commands, next[j]) by {
            if j < k {
                assert(next[j] == partial[j]);
            }
        }
        let full = extend_listings(al, next);
        assert forall|j: int| 0 <= j < partial.len() implies full[j] == partial[j] by {
            assert(full[j] == next[j]);
        }
        full
    }
}

fn extra_parts_present(existing: &Vec<String>, files: &Vec<OutputFile>) -> (res: bool)
    ensures
        res == present(text_views(existing@), file_views(files@), extra_parts_file()),
{
    is_present(existing, files, &String::from_str("extra-parts.yaml"))
}

/// The files of all the aggregates, and the names of their parts. The
/// aggregates and their commands are taken in the order of the hash maps
/// that hold them.
fn create_aggregates(app: &App, depth: usize, mock_mode: bool, existing: &Vec<String>) -> (res: Option<(Vec<OutputFile>, Array)>)
    ensures
        exists|al: Seq<(Seq<char>, AggregateV)>, cls: Seq<Seq<(Seq<char>, SchemaObjectV)>>|
            listings(app@, al, cls) && match aggregates_upto(app@, al, cls, al.len(), depth as nat, mock_mode, text_views(existing@)) {
                Some((fs, parts)) => res matches Some(r) && file_views(r.0@) == fs && array_items(r.1) == parts,
                None => res is None,
            },
{
    let entries = aggregate_map_entries(&app.aggregates);
    let ghost al = aggregate_entry_views(entries@);
    let ghost mut cls: Seq<Seq<(Seq<char>, SchemaObjectV)>> = Seq::empty();
    let mut files: Vec<OutputFile> = Vec::new();
    let mut parts = array_new();
    proof {
        assert(file_views(files@) =~= Seq::<FileV>::empty());
    }
    let mut i: usize = 0;
    while i < entries.len()
        invariant
            i <= entries@.len(),
            al == aggregate_entry_views(entries@),
            is_listing(app@.aggregates, al),
            forall|j: int| 0 <= j < entries@.len() ==> (#[trigger] entries@[j]).1@.commands.dom().finite(),
            cls.len() == i,
            forall|j: int| 0 <= j < i ==> is_listing(#[trigger] al[j].1.commands, cls[j]),
            aggregates_upto(app@, al, cls, i as nat, depth as nat, mock_mode, text_views(existing@))
                == Some((file_views(files@), array_items(parts))),
        decreases entries@.len() - i,
    {
        let ghost before = file_views(files@);
        let aggregate = &entries[i].1;
        let created = create_aggregate(app, aggregate, depth, mock_mode, existing, &mut files);
        let ghost cl = choose|cl: Seq<(Seq<char>, SchemaObjectV)>|
            is_listing(aggregate@.commands, cl) && match aggregate_files(app@, aggregate@, cl, depth as nat, mock_mode, text_views(existing@), before) {
                Some(fs) => created matches Some(f) && file_views(files@) == fs && f@ == aggregate_file(aggregate@),
                None => created is None,
            };
        let ghost new_cls = cls.push(cl);
        proof {
            assert(al[i as int].1 == aggregate@);
            lemma_aggregates_upto_prefix(app@, al, cls, new_cls, i as nat, depth as nat, mock_mode, text_views(existing@));
        }
        match created {
            Some(filename) => {
                parts = array_add_string(&parts, filename.as_str());
                proof {
                    cls = new_cls;
                }
            },
            None => {
                proof {
                    assert(aggregates_upto(app@, al, new_cls, (i + 1) as nat, depth as nat, mock_mode, text_views(existing@)) is None);
                    let full = extend_listings(al, new_cls);
                    lemma_aggregates_upto_prefix(app@, al, new_cls, full, (i + 1) as nat, depth as nat, mock_mode, text_views(existing@));
                    lemma_aggregates_upto_none(app@, al, full, (i + 1) as nat, al.len(), depth as nat, mock_mode, text_views(existing@));
                    assert(listings(app@, al, full));
                }
                return None;
            },
        }
        i = i + 1;
    }
    proof {
        assert(al.len() == entries@.len());
        assert(listings(app@, al, cls));
    }
    Some((files, parts))
}

/// The files of a JSON Streams application: for each aggregate, a reducer
/// and a validator per command, where the file does not exist yet or in mock
/// mode, and the part of the aggregate; then the empty list of extra parts
/// where it does not exist yet, and the application. `existing` holds the
/// names of the files that exist in the output directory. The aggregates and
/// their commands are taken in the order of the hash maps that hold them.
/// `None` where the conditions of a validator that it computes nest deeper
/// than the number of entities and value objects allows, which only a cycle
/// of nested objects reachable from the fields of that command causes.
pub fn generate(app: &App, mock_mode: bool, existing: &Vec<String>) -> (res: Option<Vec<OutputFile>>)
    ensures
        exists|al: Seq<(Seq<char>, AggregateV)>, cls: Seq<Seq<(Seq<char>, SchemaObjectV)>>|
            listings(app@, al, cls) && match plan_spec(app@, al, cls, nesting_limit(app@), mock_mode, text_views(existing@)) {
                Some(fs) => res matches Some(r) && file_views(r@) == fs,
                None => res is None,
            },
        validators_fit(app@, mock_mode, text_views(existing@)) && object_count(app@) < usize::MAX ==> res is Some,
        acyclic(app@) && object_count(app@) < usize::MAX ==> res is Some,
        aggregates_keyed(app@.aggregates) ==> (res matches Some(r) ==> forall|e: Seq<char>|
            #[trigger] app@.aggregates.contains_key(e) ==> has_part(file_views(r@), app@.aggregates[e])),
{
    let ne = schema_map_len(&app.entities);
    let nv = schema_map_len(&app.value_objects);
    let depth: usize = if ne <= usize::MAX - 2 && nv <= usize::MAX - 2 - ne {
        ne + nv + 2
    } else {
        usize::MAX
    };
    proof {
        assert(depth as nat == nesting_limit(app@));
    }
    let created = create_aggregates(app, depth, mock_mode, existing);
    let ghost (al, cls) = choose|al: Seq<(Seq<char>, AggregateV)>, cls: Seq<Seq<(Seq<char>, SchemaObjectV)>>|
        listings(app@, al, cls) && match aggregates_upto(app@, al, cls, al.len(), depth as nat, mock_mode, text_views(existing@)) {
            Some((fs, parts)) => created matches Some(r) && file_views(r.0@) == fs && array_items(r.1) == parts,
            None => created is None,
        };
    let (mut files, parts) = match created {
        Some(r) => r,
        None => {
            proof {
                assert(plan_spec(app@, al, cls, nesting_limit(app@), mock_mode, text_views(existing@)) is None);
                if acyclic(app@) && object_count(app@) < usize::MAX {
                    law_acyclic_generates(app@, al, cls, mock_mode, text_views(existing@));
                }
                if validators_fit(app@, mock_mode, text_views(existing@)) && object_count(app@) < usize::MAX {
                    law_generates(app@, al, cls, mock_mode, text_views(existing@));
                }
            }
            return None;
        },
    };
    let ghost fs0 = file_views(files@);
    if !extra_parts_present(existing, &files) {
        files.push(OutputFile { name: String::from_str("extra-parts.yaml"), content: Content::Yaml(array_value(&array_new())) });
    }
    let generated = add_array(
        &add_string(&add_string(&object_new(), "application", to_lowercase(app.name.as_str()).as_str()), "version", app.version.as_str()),
        "parts",
        &array_add_string(&parts, "extra-parts.yaml"),
    );
    files.push(OutputFile { name: String::from_str("application.yaml"), content: Content::Yaml(object_value(&generated)) });
    proof {
        assert(object_fields(generated) == application_doc(app@, array_items(parts)));
        let with_extra = if present(text_views(existing@), fs0, extra_parts_file()) {
            fs0
        } else {
            fs0.push(FileV { name: extra_parts_file(), content: ContentV::Yaml(JVal::Arr(no_items())) })
        };
        assert(file_views(files@) =~= with_extra.push(FileV { name: "application.yaml"@, content: ContentV::Yaml(JVal::Obj(application_doc(app@, array_items(parts)))) }));
        assert(plan_spec(app@, al, cls, nesting_limit(app@), mock_mode, text_views(existing@)) == Some(file_views(files@)));
        if aggregates_keyed(app@.aggregates) {
            law_plan_parts_list_commands(app@, al, cls, nesting_limit(app@), mock_mode, text_views(existing@));
        }
    }
    Some(files)
}

/// Allowing deeper nesting does not change the conditions of a field that
/// fit within the smaller depth.
pub proof fn law_field_conditions_depth(app: AppV, field: FieldV, n: nat, m: nat)
    requires
        n <= m,
        field_conditions(app, field, n) is Some,
    ensures
        field_conditions(app, field, m) == field_conditions(app, field, n),
    decreases n, 0nat, 0nat,
{
    if descends(field) {
        lemma_sub_conditions_depth(app, field, (n - 1) as nat, (m - 1) as nat);
    }
}

proof fn lemma_sub_conditions_depth(app: AppV, field: FieldV, n: nat, m: nat)
    requires
        n <= m,
        sub_field_conditions(app, field, n) is Some,
    ensures
        sub_field_conditions(app, field, m) == sub_field_conditions(app, field, n),
    decreases n, 2nat, 0nat,
{
    if let Some(o) = related_object(app, field.related) {
        lemma_prefixed_conditions_depth(app, o.fields, field.name, n, m);
    }
}

proof fn lemma_prefixed_conditions_depth(app: AppV, fields: Seq<FieldV>, prefix: Seq<char>, n: nat, m: nat)
    requires
        n <= m,
        prefixed_conditions(app, fields, prefix, n) is Some,
    ensures
        prefixed_conditions(app, fields, prefix, m) == prefixed_conditions(app, fields, prefix, n),
    decreases n, 1nat, fields.len(),
{
    if fields.len() > 0 {
        lemma_prefixed_conditions_depth(app, fields.drop_last(), prefix, n, m);
        law_field_conditions_depth(app, prefixed(fields.last(), prefix), n, m);
    }
}

/// The object that a relation designates is defined in the application.
pub open spec fn defined(app: AppV, r: RelatedV) -> bool {
    related_object(app, Some(r)) is Some
}

/// A field of the object `x` descends into the object `y`.
pub open spec fn nests(app: AppV, x: RelatedV, y: RelatedV) -> bool {
    &&& defined(app, x)
    &&& defined(app, y)
    &&& exists|i: int|
        0 <= i < related_object(app, Some(x))->Some_0.fields.len()
            && descends(#[trigger] related_object(app, Some(x))->Some_0.fields[i])
            && related_object(app, Some(x))->Some_0.fields[i].related == Some(y)
}

/// The object `p[i + 1]` is nested in `p[i]`.
pub open spec fn linked(app: AppV, p: Seq<RelatedV>, i: int) -> bool {
    nests(app, p[i], p[i + 1])
}

/// Objects of the application, each nested in the one before it.
pub open spec fn is_chain(app: AppV, p: Seq<RelatedV>) -> bool {
    &&& forall|i: int| 0 <= i < p.len() ==> #[trigger] defined(app, p[i])
    &&& forall|i: int| 0 <= i < p.len() - 1 ==> #[trigger] linked(app, p, i)
}

/// No entity or value object is nested in itself, directly or through
/// others.
pub open spec fn acyclic(app: AppV) -> bool {
    forall|p: Seq<RelatedV>| #[trigger] is_chain(app, p) && p.len() >= 2 ==> p[0] != p.last()
}

/// The number of entities and value objects.
pub open spec fn object_count(app: AppV) -> nat {
    app.entities.dom().len() + app.value_objects.dom().len()
}

/// The entities and value objects that the application defines.
pub open spec fn defined_objects(app: AppV) -> Set<RelatedV> {
    Set::new(|r: RelatedV| defined(app, r))
}

proof fn lemma_defined_objects_len(app: AppV)
    requires
        app.entities.dom().finite(),
        app.value_objects.dom().finite(),
    ensures
        defined_objects(app).finite(),
        defined_objects(app).len() <= object_count(app),
{
    let fe = |n: Seq<char>| RelatedV::Entity(n);
    let fv = |n: Seq<char>| RelatedV::ValueObject(n);
    let se = app.entities.dom().map(fe);
    let sv = app.value_objects.dom().map(fv);
    vstd::set_lib::lemma_map_size_bound(app.entities.dom(), se, fe);
    vstd::set_lib::lemma_map_size_bound(app.value_objects.dom(), sv, fv);
    vstd::set_lib::lemma_len_union(se, sv);
    assert forall|r: RelatedV| #[trigger] defined_objects(app).contains(r) <==> se.union(sv).contains(r) by {
        match r {
            RelatedV::Entity(n) => {
                if app.entities.contains_key(n) {
                    assert(app.entities.dom().contains(n) && fe(n) == r);
                }
                if se.contains(r) {
                    let m = choose|m: Seq<char>| app.entities.dom().contains(m) && fe(m) == r;
                    assert(m == n);
                }
                if sv.contains(r) {
                    let m = choose|m: Seq<char>| app.value_objects.dom().contains(m) && fv(m) == r;
                    assert(false);
                }
            },
            RelatedV::ValueObject(n) => {
                if app.value_objects.contains_key(n) {
                    assert(app.value_objects.dom().contains(n) && fv(n) == r);
                }
                if sv.contains(r) {
                    let m = choose|m: Seq<char>| app.value_objects.dom().contains(m) && fv(m) == r;
                    assert(m == n);
                }
                if se.contains(r) {
                    let m = choose|m: Seq<char>| app.entities.dom().contains(m) && fe(m) == r;
                    assert(false);
                }
            },
        }
    }
    assert(defined_objects(app) =~= se.union(sv));
}

/// An object occurs at most once in a chain where none is nested in itself.
proof fn lemma_chain_no_duplicates(app: AppV, p: Seq<RelatedV>)
    requires
        acyclic(app),
        is_chain(app, p),
    ensures
        p.no_duplicates(),
{
    assert forall|i: int, j: int| 0 <= i < p.len() && 0 <= j < p.len() && i != j implies p[i] != p[j] by {
        if p[i] == p[j] {
            let a = if i < j { i } else { j };
            let b = if i < j { j } else { i };
            let q = p.subrange(a, b + 1);
            assert forall|k: int| 0 <= k < q.len() implies #[trigger] defined(app, q[k]) by {
                assert(q[k] == p[a + k]);
                assert(defined(app, p[a + k]));
            }
            assert forall|k: int| 0 <= k < q.len() - 1 implies #[trigger] linked(app, q, k) by {
                assert(q[k] == p[a + k] && q[k + 1] == p[a + k + 1]);
                assert(linked(app, p, a + k));
            }
            assert(is_chain(app, q));
            assert(q[0] == q.last());
        }
    }
}

/// No chain of nested objects that starts at `r` meets an object twice: no
/// object nested in `r`, directly or through others, is nested in itself.
pub open spec fn no_cycle_from(app: AppV, r: RelatedV) -> bool {
    forall|p: Seq<RelatedV>| #[trigger] is_chain(app, p) && p.len() > 0 && p[0] == r ==> p.no_duplicates()
}

/// Where a field descends into an object, no cycle of nested objects can be
/// reached from it.
pub open spec fn enters_no_cycle(app: AppV, field: FieldV) -> bool {
    descends(field) && field.related is Some ==> no_cycle_from(app, field.related->Some_0)
}

/// No field of a command leads into a cycle of nested objects.
pub open spec fn reaches_no_cycle(app: AppV, command: SchemaObjectV) -> bool {
    forall|i: int| 0 <= i < command.fields.len() ==> #[trigger] enters_no_cycle(app, command.fields[i])
}

/// The validator of a command fits, or is not computed: no field of the
/// command leads into a cycle, or, outside mock mode, its validator exists.
pub open spec fn command_fits(app: AppV, command: SchemaObjectV, mock_mode: bool, existing: Seq<Seq<char>>) -> bool {
    reaches_no_cycle(app, command) || (!mock_mode && existing.contains(validator_file(command.name)))
}

/// Every command of the application fits.
pub open spec fn validators_fit(app: AppV, mock_mode: bool, existing: Seq<Seq<char>>) -> bool {
    forall|e: Seq<char>, k: Seq<char>|
        #![trigger app.aggregates[e].commands.contains_key(k)]
        app.aggregates.contains_key(e) && app.aggregates[e].commands.contains_key(k)
            ==> command_fits(app, app.aggregates[e].commands[k], mock_mode, existing)
}

/// Where no object is nested in itself, no cycle can be reached from any.
proof fn lemma_acyclic_no_cycle_from(app: AppV, r: RelatedV)
    requires
        acyclic(app),
    ensures
        no_cycle_from(app, r),
{
    assert forall|p: Seq<RelatedV>| #[trigger] is_chain(app, p) && p.len() > 0 && p[0] == r implies p.no_duplicates() by {
        lemma_chain_no_duplicates(app, p);
    }
}

/// A chain from which no cycle can be reached is no longer than the number
/// of entities and value objects.
proof fn lemma_chain_len(app: AppV, p: Seq<RelatedV>)
    requires
        app.entities.dom().finite(),
        app.value_objects.dom().finite(),
        is_chain(app, p),
        p.len() > 0 ==> no_cycle_from(app, p[0]),
    ensures
        p.len() <= object_count(app),
{
    if p.len() > 0 {
        assert(p.no_duplicates());
        p.unique_seq_to_set();
        lemma_defined_objects_len(app);
        assert forall|r: RelatedV| #[trigger] p.to_set().contains(r) implies defined_objects(app).contains(r) by {
            let i = choose|i: int| 0 <= i < p.len() && p[i] == r;
            assert(defined(app, p[i]));
        }
        vstd::set_lib::lemma_len_subset(p.to_set(), defined_objects(app));
    }
}

/// Where a field descends into an object that the application defines, that
/// object is nested in the last one visited.
pub open spec fn enters_from(app: AppV, field: FieldV, visited: Seq<RelatedV>) -> bool {
    visited.len() > 0 && descends(field) && field.related is Some && defined(app, field.related->Some_0)
        ==> nests(app, visited.last(), field.related->Some_0)
}

proof fn lemma_field_conditions_fit(app: AppV, field: FieldV, depth: nat, visited: Seq<RelatedV>)
    requires
        app.entities.dom().finite(),
        app.value_objects.dom().finite(),
        is_chain(app, visited),
        visited.len() > 0 ==> no_cycle_from(app, visited[0]),
        visited.len() == 0 ==> enters_no_cycle(app, field),
        enters_from(app, field, visited),
        depth + visited.len() > object_count(app),
    ensures
        field_conditions(app, field, depth) is Some,
    decreases depth, 0nat, 0nat,
{
    lemma_chain_len(app, visited);
    if descends(field) {
        lemma_sub_conditions_fit(app, field, (depth - 1) as nat, visited);
    }
}

proof fn lemma_sub_conditions_fit(app: AppV, field: FieldV, depth: nat, visited: Seq<RelatedV>)
    requires
        app.entities.dom().finite(),
        app.value_objects.dom().finite(),
        is_chain(app, visited),
        visited.len() > 0 ==> no_cycle_from(app, visited[0]),
        visited.len() == 0 ==> enters_no_cycle(app, field),
        enters_from(app, field, visited),
        descends(field),
        depth + visited.len() >= object_count(app),
    ensures
        sub_field_conditions(app, field, depth) is Some,
    decreases depth, 2nat, 0nat,
{
    if let Some(o) = related_object(app, field.related) {
        let y = field.related->Some_0;
        let next = visited.push(y);
        assert forall|k: int| 0 <= k < next.len() implies #[trigger] defined(app, next[k]) by {
            if k < visited.len() {
                assert(next[k] == visited[k]);
            }
        }
        assert forall|k: int| 0 <= k < next.len() - 1 implies #[trigger] linked(app, next, k) by {
            if k < visited.len() - 1 {
                assert(next[k] == visited[k] && next[k + 1] == visited[k + 1]);
                assert(linked(app, visited, k));
            } else {
                assert(next[k] == visited.last() && next[k + 1] == y);
            }
        }
        assert(is_chain(app, next));
        assert(no_cycle_from(app, next[0])) by {
            if visited.len() > 0 {
                assert(next[0] == visited[0]);
            } else {
                assert(next[0] == y);
            }
        }
        assert forall|i: int| 0 <= i < o.fields.len() implies #[trigger] enters_from(app, o.fields[i], next) by {
            let g = o.fields[i];
            if descends(g) && g.related is Some && defined(app, g.related->Some_0) {
                assert(related_object(app, Some(y)) == Some(o));
                assert(descends(related_object(app, Some(y))->Some_0.fields[i]));
            }
        }
        lemma_prefixed_conditions_fit(app, o.fields, field.name, depth, next);
    }
}

proof fn lemma_prefixed_conditions_fit(app: AppV, fields: Seq<FieldV>, prefix: Seq<char>, depth: nat, visited: Seq<RelatedV>)
    requires
        app.entities.dom().finite(),
        app.value_objects.dom().finite(),
        is_chain(app, visited),
        visited.len() > 0,
        no_cycle_from(app, visited[0]),
        forall|i: int| 0 <= i < fields.len() ==> #[trigger] enters_from(app, fields[i], visited),
        depth + visited.len() > object_count(app),
    ensures
        prefixed_conditions(app, fields, prefix, depth) is Some,
    decreases depth, 1nat, fields.len(),
{
    if fields.len() > 0 {
        let d = fields.drop_last();
        assert forall|i: int| 0 <= i < d.len() implies #[trigger] enters_from(app, d[i], visited) by {
            assert(d[i] == fields[i]);
        }
        lemma_prefixed_conditions_fit(app, d, prefix, depth, visited);
        assert(enters_from(app, fields[fields.len() - 1], visited));
        assert(enters_from(app, prefixed(fields.last(), prefix), visited));
        lemma_field_conditions_fit(app, prefixed(fields.last(), prefix), depth, visited);
    }
}

proof fn lemma_conditions_fit(app: AppV, fields: Seq<FieldV>, depth: nat)
    requires
        app.entities.dom().finite(),
        app.value_objects.dom().finite(),
        forall|i: int| 0 <= i < fields.len() ==> #[trigger] enters_no_cycle(app, fields[i]),
        depth > object_count(app),
    ensures
        conditions_of(app, fields, depth) is Some,
    decreases fields.len(),
{
    if fields.len() > 0 {
        let d = fields.drop_last();
        assert forall|i: int| 0 <= i < d.len() implies #[trigger] enters_no_cycle(app, d[i]) by {
            assert(d[i] == fields[i]);
        }
        lemma_conditions_fit(app, d, depth);
        assert(enters_no_cycle(app, fields[fields.len() - 1]));
        lemma_field_conditions_fit(app, fields.last(), depth, Seq::empty());
    }
}

/// Where no field of a command leads into a cycle of nested objects, its
/// validator fits within any depth beyond the number of entities and value
/// objects.
pub proof fn law_validator_fits(app: AppV, command: SchemaObjectV, depth: nat)
    requires
        app.entities.dom().finite(),
        app.value_objects.dom().finite(),
        reaches_no_cycle(app, command),
        depth > object_count(app),
    ensures
        validator_spec(app, command, depth) is Some,
{
    lemma_conditions_fit(app, command.fields, depth);
}

/// Where no entity or value object is nested in itself, directly or through
/// others, no field of any command leads into a cycle.
pub proof fn law_acyclic_reaches_no_cycle(app: AppV, command: SchemaObjectV)
    requires
        acyclic(app),
    ensures
        reaches_no_cycle(app, command),
{
    assert forall|i: int| 0 <= i < command.fields.len() implies #[trigger] enters_no_cycle(app, command.fields[i]) by {
        if descends(command.fields[i]) && command.fields[i].related is Some {
            lemma_acyclic_no_cycle_from(app, command.fields[i].related->Some_0);
        }
    }
}

/// Where no entity or value object is nested in itself, directly or through
/// others, the validator of every command fits within any depth beyond the
/// number of entities and value objects.
pub proof fn law_acyclic_validators(app: AppV, command: SchemaObjectV, depth: nat)
    requires
        app.entities.dom().finite(),
        app.value_objects.dom().finite(),
        acyclic(app),
        depth > object_count(app),
    ensures
        validator_spec(app, command, depth) is Some,
{
    law_acyclic_reaches_no_cycle(app, command);
    law_validator_fits(app, command, depth);
}

proof fn lemma_commands_files_fit(
    app: AppV,
    cl: Seq<(Seq<char>, SchemaObjectV)>,
    depth: nat,
    mock_mode: bool,
    existing: Seq<Seq<char>>,
    files: Seq<FileV>,
)
    requires
        app.entities.dom().finite(),
        app.value_objects.dom().finite(),
        forall|j: int| 0 <= j < cl.len() ==> command_fits(app, (#[trigger] cl[j]).1, mock_mode, existing),
        depth > object_count(app),
    ensures
        commands_files(app, cl, depth, mock_mode, existing, files) is Some,
    decreases cl.len(),
{
    if cl.len() > 0 {
        let d = cl.drop_last();
        assert forall|j: int| 0 <= j < d.len() implies command_fits(app, (#[trigger] d[j]).1, mock_mode, existing) by {
            assert(d[j] == cl[j]);
        }
        lemma_commands_files_fit(app, d, depth, mock_mode, existing, files);
        let c = cl.last().1;
        assert(command_fits(app, cl[cl.len() - 1].1, mock_mode, existing));
        if reaches_no_cycle(app, c) {
            law_validator_fits(app, c, depth);
        }
    }
}

proof fn lemma_aggregates_fit(
    app: AppV,
    al: Seq<(Seq<char>, AggregateV)>,
    cls: Seq<Seq<(Seq<char>, SchemaObjectV)>>,
    n: nat,
    depth: nat,
    mock_mode: bool,
    existing: Seq<Seq<char>>,
)
    requires
        app.entities.dom().finite(),
        app.value_objects.dom().finite(),
        forall|j: int, i: int| 0 <= j < n && 0 <= i < cls[j].len() ==> command_fits(app, (#[trigger] cls[j][i]).1, mock_mode, existing),
        depth > object_count(app),
    ensures
        aggregates_upto(app, al, cls, n, depth, mock_mode, existing) is Some,
    decreases n,
{
    if n > 0 {
        lemma_aggregates_fit(app, al, cls, (n - 1) as nat, depth, mock_mode, existing);
        let (fs, parts) = aggregates_upto(app, al, cls, (n - 1) as nat, depth, mock_mode, existing)->Some_0;
        assert forall|i: int| 0 <= i < cls[n - 1].len() implies command_fits(app, (#[trigger] cls[n - 1][i]).1, mock_mode, existing) by {
            assert(command_fits(app, cls[n - 1][i].1, mock_mode, existing));
        }
        lemma_commands_files_fit(app, cls[n - 1], depth, mock_mode, existing, fs);
    }
}

/// Where every command of the application whose validator is computed has
/// no field that leads into a cycle of nested objects, the generator writes
/// every file, whatever the order of the aggregates and their commands. A
/// cycle that no such command reaches does no harm.
pub proof fn law_generates(
    app: AppV,
    al: Seq<(Seq<char>, AggregateV)>,
    cls: Seq<Seq<(Seq<char>, SchemaObjectV)>>,
    mock_mode: bool,
    existing: Seq<Seq<char>>,
)
    requires
        app.entities.dom().finite(),
        app.value_objects.dom().finite(),
        listings(app, al, cls),
        validators_fit(app, mock_mode, existing),
        object_count(app) < usize::MAX,
    ensures
        plan_spec(app, al, cls, nesting_limit(app), mock_mode, existing) is Some,
{
    assert forall|j: int, i: int| 0 <= j < al.len() && 0 <= i < cls[j].len()
        implies command_fits(app, (#[trigger] cls[j][i]).1, mock_mode, existing) by {
        lemma_listing_entry(app.aggregates, al, j);
        assert(is_listing(al[j].1.commands, cls[j]));
        lemma_listing_entry(al[j].1.commands, cls[j], i);
        let e = al[j].0;
        let k = cls[j][i].0;
        assert(app.aggregates.contains_key(e) && app.aggregates[e].commands.contains_key(k));
    }
    lemma_aggregates_fit(app, al, cls, al.len(), nesting_limit(app), mock_mode, existing);
}

/// Where no entity or value object is nested in itself, directly or through
/// others, the generator writes every file: no validator exceeds the nesting
/// limit, whatever the order of the aggregates and their commands.
pub proof fn law_acyclic_generates(
    app: AppV,
    al: Seq<(Seq<char>, AggregateV)>,
    cls: Seq<Seq<(Seq<char>, SchemaObjectV)>>,
    mock_mode: bool,
    existing: Seq<Seq<char>>,
)
    requires
        app.entities.dom().finite(),
        app.value_objects.dom().finite(),
        acyclic(app),
        object_count(app) < usize::MAX,
    ensures
        plan_spec(app, al, cls, nesting_limit(app), mock_mode, existing) is Some,
{
    assert forall|j: int, i: int| 0 <= j < al.len() && 0 <= i < cls[j].len()
        implies command_fits(app, (#[trigger] cls[j][i]).1, mock_mode, existing) by {
        law_acyclic_reaches_no_cycle(app, cls[j][i].1);
    }
    lemma_aggregates_fit(app, al, cls, al.len(), nesting_limit(app), mock_mode, existing);
}

/// `a` is the beginning of `b`.
pub open spec fn extends(a: Seq<FileV>, b: Seq<FileV>) -> bool {
    a.len() <= b.len() && b.take(a.len() as int) == a
}

/// A file of the given name is among the files.
pub open spec fn written(files: Seq<FileV>, name: Seq<char>) -> bool {
    exists|i: int| 0 <= i < files.len() && #[trigger] files[i].name == name
}

proof fn lemma_extends_trans(a: Seq<FileV>, b: Seq<FileV>, c: Seq<FileV>)
    requires
        extends(a, b),
        extends(b, c),
    ensures
        extends(a, c),
{
    assert(c.take(a.len() as int) =~= c.take(b.len() as int).take(a.len() as int));
}

proof fn lemma_extends_push(a: Seq<FileV>, f: FileV)
    ensures
        extends(a, a.push(f)),
        written(a.push(f), f.name),
{
    assert(a.push(f).take(a.len() as int) =~= a);
    assert(a.push(f)[a.len() as int].name == f.name);
}

proof fn lemma_written_extends(a: Seq<FileV>, b: Seq<FileV>, name: Seq<char>)
    requires
        extends(a, b),
        written(a, name),
    ensures
        written(b, name),
{
    let i = choose|i: int| 0 <= i < a.len() && #[trigger] a[i].name == name;
    assert(b[i] == b.take(a.len() as int)[i]);
}

proof fn lemma_command_files_extend(
    app: AppV,
    c: SchemaObjectV,
    depth: nat,
    mock_mode: bool,
    existing: Seq<Seq<char>>,
    files: Seq<FileV>,
)
    ensures
        command_files(app, c, depth, mock_mode, existing, files) matches Some(fs) ==> extends(files, fs)
            && (mock_mode ==> written(fs, reducer_file(c.name)) && written(fs, validator_file(c.name))),
{
    let r = FileV { name: reducer_file(c.name), content: ContentV::Text(reducer_text()) };
    let with_reducer = if mock_mode || !present(existing, files, reducer_file(c.name)) {
        files.push(r)
    } else {
        files
    };
    lemma_extends_push(files, r);
    assert(extends(files, files)) by {
        assert(files.take(files.len() as int) =~= files);
    }
    if let Some(fs) = command_files(app, c, depth, mock_mode, existing, files) {
        if mock_mode || !present(existing, with_reducer, validator_file(c.name)) {
            let v = validator_spec(app, c, depth)->Some_0;
            let vf = FileV { name: validator_file(c.name), content: ContentV::Yaml(JVal::Obj(v)) };
            lemma_extends_push(with_reducer, vf);
            lemma_extends_trans(files, with_reducer, fs);
            if mock_mode {
                lemma_written_extends(with_reducer, fs, reducer_file(c.name));
            }
        }
    }
}

/// Outside mock mode the files that a command adds are new: none of them
/// existed before, and none was written before it.
pub proof fn law_command_files_fresh(
    app: AppV,
    c: SchemaObjectV,
    depth: nat,
    existing: Seq<Seq<char>>,
    files: Seq<FileV>,
)
    ensures
        command_files(app, c, depth, false, existing, files) matches Some(fs) ==> {
            &&& extends(files, fs)
            &&& forall|i: int| files.len() <= i < fs.len() ==> !existing.contains(#[trigger] fs[i].name)
                && forall|j: int| 0 <= j < i ==> fs[j].name != fs[i].name
        },
{
    lemma_command_files_extend(app, c, depth, false, existing, files);
    let r = FileV { name: reducer_file(c.name), content: ContentV::Text(reducer_text()) };
    let with_reducer = if !present(existing, files, reducer_file(c.name)) {
        files.push(r)
    } else {
        files
    };
    if let Some(fs) = command_files(app, c, depth, false, existing, files) {
        assert forall|i: int| files.len() <= i < fs.len() implies !existing.contains(#[trigger] fs[i].name)
            && forall|j: int| 0 <= j < i ==> fs[j].name != fs[i].name by {
            if i < with_reducer.len() {
                assert(fs[i] == with_reducer[i]);
                assert(fs[i] == r);
                assert forall|j: int| 0 <= j < i implies fs[j].name != fs[i].name by {
                    assert(fs[j] == files[j]);
                }
            } else {
                assert(!present(existing, with_reducer, validator_file(c.name)));
                assert(fs[i].name == validator_file(c.name));
                assert forall|j: int| 0 <= j < i implies fs[j].name != fs[i].name by {
                    assert(fs[j] == with_reducer[j]);
                }
            }
        }
    }
}

proof fn lemma_commands_files_extend(
    app: AppV,
    cl: Seq<(Seq<char>, SchemaObjectV)>,
    depth: nat,
    mock_mode: bool,
    existing: Seq<Seq<char>>,
    files: Seq<FileV>,
)
    ensures
        commands_files(app, cl, depth, mock_mode, existing, files) matches Some((fs, _)) ==> extends(files, fs)
            && (mock_mode ==> forall|j: int| 0 <= j < cl.len() ==> written(fs, reducer_file((#[trigger] cl[j]).1.name))
                && written(fs, validator_file(cl[j].1.name))),
    decreases cl.len(),
{
    if cl.len() == 0 {
        assert(files.take(files.len() as int) =~= files);
    } else {
        lemma_commands_files_extend(app, cl.drop_last(), depth, mock_mode, existing, files);
        if let Some((fs, _)) = commands_files(app, cl.drop_last(), depth, mock_mode, existing, files) {
            lemma_command_files_extend(app, cl.last().1, depth, mock_mode, existing, fs);
            if let Some(fs2) = command_files(app, cl.last().1, depth, mock_mode, existing, fs) {
                lemma_extends_trans(files, fs, fs2);
                if mock_mode {
                    assert forall|j: int| 0 <= j < cl.len() implies written(fs2, reducer_file((#[trigger] cl[j]).1.name))
                        && written(fs2, validator_file(cl[j].1.name)) by {
                        if j < cl.len() - 1 {
                            assert(cl.drop_last()[j] == cl[j]);
                            lemma_written_extends(fs, fs2, reducer_file(cl[j].1.name));
                            lemma_written_extends(fs, fs2, validator_file(cl[j].1.name));
                        }
                    }
                }
            }
        }
    }
}

proof fn lemma_aggregates_upto_extend(
    app: AppV,
    al: Seq<(Seq<char>, AggregateV)>,
    cls: Seq<Seq<(Seq<char>, SchemaObjectV)>>,
    n: nat,
    depth: nat,
    mock_mode: bool,
    existing: Seq<Seq<char>>,
)
    requires
        n <= al.len(),
        cls.len() == al.len(),
    ensures
        aggregates_upto(app, al, cls, n, depth, mock_mode, existing) matches Some((fs, parts)) ==> parts.len() == n
            && (forall|j: int| 0 <= j < n ==> parts[j] == JVal::Str(aggregate_file((#[trigger] al[j]).1)))
            && (forall|j: int| 0 <= j < n ==> written(fs, aggregate_file((#[trigger] al[j]).1)))
            && (mock_mode ==> forall|j: int, k: int| 0 <= j < n && 0 <= k < cls[j].len()
                ==> written(fs, reducer_file((#[trigger] cls[j][k]).1.name)) && written(fs, validator_file(cls[j][k].1.name))),
    decreases n,
{
    if n > 0 {
        lemma_aggregates_upto_extend(app, al, cls, (n - 1) as nat, depth, mock_mode, existing);
        if let Some((fs, parts)) = aggregates_upto(app, al, cls, (n - 1) as nat, depth, mock_mode, existing) {
            let a = al[n - 1].1;
            lemma_commands_files_extend(app, cls[n - 1], depth, mock_mode, existing, fs);
            if let Some((fs1, entries)) = commands_files(app, cls[n - 1], depth, mock_mode, existing, fs) {
                let pf = FileV { name: aggregate_file(a), content: ContentV::Yaml(JVal::Obj(aggregate_doc(app, a, entries))) };
                let fs2 = fs1.push(pf);
                lemma_extends_push(fs1, pf);
                lemma_extends_trans(fs, fs1, fs2);
                let parts2 = parts.push(JVal::Str(aggregate_file(a)));
                assert forall|j: int| 0 <= j < n implies written(fs2, aggregate_file((#[trigger] al[j]).1)) by {
                    if j < n - 1 {
                        lemma_written_extends(fs, fs2, aggregate_file(al[j].1));
                    }
                }
                assert forall|j: int| 0 <= j < n implies parts2[j] == JVal::Str(aggregate_file((#[trigger] al[j]).1)) by {
                    if j < n - 1 {
                        assert(parts2[j] == parts[j]);
                    }
                }
                if mock_mode {
                    assert forall|j: int, k: int| 0 <= j < n && 0 <= k < cls[j].len()
                        implies written(fs2, reducer_file((#[trigger] cls[j][k]).1.name)) && written(fs2, validator_file(cls[j][k].1.name)) by {
                        if j < n - 1 {
                            lemma_written_extends(fs, fs2, reducer_file(cls[j][k].1.name));
                            lemma_written_extends(fs, fs2, validator_file(cls[j][k].1.name));
                        } else {
                            assert(cls[n - 1][k] == cls[j][k]);
                            lemma_written_extends(fs1, fs2, reducer_file(cls[j][k].1.name));
                            lemma_written_extends(fs1, fs2, validator_file(cls[j][k].1.name));
                        }
                    }
                }
            }
        }
    }
}

/// What a part says of a command: where its reducer and its validator are,
/// and its description where it has one.
pub open spec fn entry_of(c: SchemaObjectV) -> JFields {
    let files = no_fields().insert("reducer"@, JVal::Str("reducers/"@ + c.name + ".jq"@)).insert(
        "validator"@,
        JVal::Str("validators/"@ + c.name + ".yaml"@),
    );
    match c.description {
        Some(d) => files.insert("description"@, JVal::Str(d)),
        None => files,
    }
}

/// A document whose `commands` names exactly the given commands, each with
/// its entry.
pub open spec fn lists_commands(content: ContentV, cmds: Map<Seq<char>, SchemaObjectV>) -> bool {
    match content {
        ContentV::Yaml(JVal::Obj(part)) => part.contains_key("commands"@) && match part["commands"@] {
            JVal::Obj(entries) => entries.dom() == cmds.dom()
                && forall|k: Seq<char>| #[trigger] cmds.contains_key(k) ==> entries[k] == JVal::Obj(entry_of(cmds[k])),
            _ => false,
        },
        _ => false,
    }
}

proof fn lemma_commands_entries_upto(
    app: AppV,
    cmds: Map<Seq<char>, SchemaObjectV>,
    cl: Seq<(Seq<char>, SchemaObjectV)>,
    n: int,
    depth: nat,
    mock_mode: bool,
    existing: Seq<Seq<char>>,
    files: Seq<FileV>,
)
    requires
        is_listing(cmds, cl),
        keyed_by_name(cmds),
        0 <= n <= cl.len(),
    ensures
        commands_files(app, cl.take(n), depth, mock_mode, existing, files) matches Some((fs, entries)) ==> {
            &&& forall|k: Seq<char>| #[trigger] entries.contains_key(k) <==> exists|j: int| 0 <= j < n && cl[j].0 == k
            &&& forall|j: int| 0 <= j < n ==> entries[(#[trigger] cl[j]).0] == JVal::Obj(entry_of(cl[j].1))
        },
    decreases n,
{
    if n > 0 {
        lemma_commands_entries_upto(app, cmds, cl, n - 1, depth, mock_mode, existing, files);
        assert(cl.take(n).drop_last() =~= cl.take(n - 1));
        assert(cl.take(n).last() == cl[n - 1]);
        lemma_listing_entry(cmds, cl, n - 1);
        assert(cl[n - 1].1.name == cl[n - 1].0);
        if let Some((fs, entries)) = commands_files(app, cl.take(n), depth, mock_mode, existing, files) {
            let (fs0, e0) = commands_files(app, cl.take(n - 1), depth, mock_mode, existing, files)->Some_0;
            assert(entries == e0.insert(cl[n - 1].0, JVal::Obj(command_entry(cl[n - 1].1))));
            reveal_strlit("reducers/");
            reveal_strlit("validators/");
            assert(command_entry(cl[n - 1].1) == entry_of(cl[n - 1].1));
            assert forall|k: Seq<char>| #[trigger] entries.contains_key(k) <==> exists|j: int| 0 <= j < n && cl[j].0 == k by {
                if entries.contains_key(k) && k != cl[n - 1].0 {
                    let j = choose|j: int| 0 <= j < n - 1 && cl[j].0 == k;
                }
            }
            assert forall|j: int| 0 <= j < n implies entries[(#[trigger] cl[j]).0] == JVal::Obj(entry_of(cl[j].1)) by {
                if j < n - 1 {
                    assert(cl[j].0 != cl[n - 1].0);
                }
            }
        }
    }
}

/// The commands of an aggregate's part name exactly the commands of the
/// aggregate, each with its reducer, its validator and its description,
/// whatever the order in which they are visited.
pub proof fn law_part_lists_every_command(
    app: AppV,
    a: AggregateV,
    cl: Seq<(Seq<char>, SchemaObjectV)>,
    depth: nat,
    mock_mode: bool,
    existing: Seq<Seq<char>>,
    files: Seq<FileV>,
)
    requires
        is_listing(a.commands, cl),
        keyed_by_name(a.commands),
    ensures
        aggregate_files(app, a, cl, depth, mock_mode, existing, files) matches Some(fs) ==> fs.last().name == aggregate_file(a)
            && lists_commands(fs.last().content, a.commands),
{
    lemma_commands_entries_upto(app, a.commands, cl, cl.len() as int, depth, mock_mode, existing, files);
    assert(cl.take(cl.len() as int) =~= cl);
    if let Some((fs0, entries)) = commands_files(app, cl, depth, mock_mode, existing, files) {
        let part = aggregate_doc(app, a, entries);
        reveal_strlit("commands");
        reveal_strlit("description");
        assert("description"@.len() != "commands"@.len());
        assert("description"@ != "commands"@);
        assert(part.contains_key("commands"@) && part["commands"@] == JVal::Obj(entries));
        assert forall|k: Seq<char>| #[trigger] entries.dom().contains(k) <==> a.commands.dom().contains(k) by {
            if a.commands.contains_key(k) {
                let j = choose|j: int| 0 <= j < cl.len() && cl[j].0 == k;
            }
            if entries.contains_key(k) {
                let j = choose|j: int| 0 <= j < cl.len() && cl[j].0 == k;
                lemma_listing_entry(a.commands, cl, j);
            }
        }
        assert(entries.dom() =~= a.commands.dom());
        assert forall|k: Seq<char>| #[trigger] a.commands.contains_key(k) implies entries[k] == JVal::Obj(entry_of(a.commands[k])) by {
            let j = choose|j: int| 0 <= j < cl.len() && cl[j].0 == k;
            lemma_listing_entry(a.commands, cl, j);
        }
    }
}

proof fn lemma_commands_files_fresh(
    app: AppV,
    cl: Seq<(Seq<char>, SchemaObjectV)>,
    depth: nat,
    existing: Seq<Seq<char>>,
    files: Seq<FileV>,
)
    ensures
        commands_files(app, cl, depth, false, existing, files) matches Some((fs, _)) ==> extends(files, fs)
            && forall|i: int| files.len() <= i < fs.len() ==> !existing.contains(#[trigger] fs[i].name),
    decreases cl.len(),
{
    if cl.len() == 0 {
        assert(files.take(files.len() as int) =~= files);
    } else {
        lemma_commands_files_fresh(app, cl.drop_last(), depth, existing, files);
        if let Some((fs, _)) = commands_files(app, cl.drop_last(), depth, false, existing, files) {
            law_command_files_fresh(app, cl.last().1, depth, existing, fs);
            if let Some(fs2) = command_files(app, cl.last().1, depth, false, existing, fs) {
                lemma_extends_trans(files, fs, fs2);
                assert forall|i: int| files.len() <= i < fs2.len() implies !existing.contains(#[trigger] fs2[i].name) by {
                    if i < fs.len() {
                        assert(fs2.take(fs.len() as int)[i] == fs2[i]);
                    }
                }
            }
        }
    }
}

/// Every file that existed among `files` is the part of one of the first
/// `n` aggregates.
pub open spec fn only_parts_existed(files: Seq<FileV>, existing: Seq<Seq<char>>, al: Seq<(Seq<char>, AggregateV)>, n: nat) -> bool {
    forall|i: int| 0 <= i < files.len() && existing.contains(#[trigger] files[i].name)
        ==> exists|j: int| 0 <= j < n && files[i].name == aggregate_file(al[j].1)
}

proof fn lemma_aggregates_upto_keeps(
    app: AppV,
    al: Seq<(Seq<char>, AggregateV)>,
    cls: Seq<Seq<(Seq<char>, SchemaObjectV)>>,
    n: nat,
    depth: nat,
    existing: Seq<Seq<char>>,
)
    ensures
        aggregates_upto(app, al, cls, n, depth, false, existing) matches Some((fs, _)) ==> only_parts_existed(fs, existing, al, n),
    decreases n,
{
    if n > 0 {
        lemma_aggregates_upto_keeps(app, al, cls, (n - 1) as nat, depth, existing);
        if let Some((fs, parts)) = aggregates_upto(app, al, cls, (n - 1) as nat, depth, false, existing) {
            lemma_commands_files_fresh(app, cls[n - 1], depth, existing, fs);
            if let Some((fs1, entries)) = commands_files(app, cls[n - 1], depth, false, existing, fs) {
                let a = al[n - 1].1;
                let fs2 = fs1.push(FileV { name: aggregate_file(a), content: ContentV::Yaml(JVal::Obj(aggregate_doc(app, a, entries))) });
                assert forall|i: int| 0 <= i < fs2.len() && existing.contains(#[trigger] fs2[i].name)
                    implies exists|j: int| 0 <= j < n && fs2[i].name == aggregate_file(al[j].1) by {
                    if i < fs.len() {
                        assert(fs1.take(fs.len() as int)[i] == fs1[i]);
                        assert(fs2[i] == fs[i]);
                        let j = choose|j: int| 0 <= j < n - 1 && fs[i].name == aggregate_file(al[j].1);
                        assert(0 <= j < n && fs2[i].name == aggregate_file(al[j].1));
                    } else if i < fs1.len() {
                        assert(fs2[i] == fs1[i]);
                    } else {
                        assert(fs2[i].name == aggregate_file(al[n - 1].1));
                    }
                }
            }
        }
    }
}

/// Outside mock mode the generator overwrites no file that existed, but for
/// the parts of the aggregates and the application: every other file that
/// it writes is new.
pub proof fn law_plan_keeps_existing(
    app: AppV,
    al: Seq<(Seq<char>, AggregateV)>,
    cls: Seq<Seq<(Seq<char>, SchemaObjectV)>>,
    depth: nat,
    existing: Seq<Seq<char>>,
)
    ensures
        plan_spec(app, al, cls, depth, false, existing) matches Some(fs) ==> forall|i: int|
            0 <= i < fs.len() && existing.contains(#[trigger] fs[i].name) ==> fs[i].name == "application.yaml"@
                || exists|j: int| 0 <= j < al.len() && fs[i].name == aggregate_file(al[j].1),
{
    lemma_aggregates_upto_keeps(app, al, cls, al.len(), depth, existing);
    if let Some((fs, parts)) = aggregates_upto(app, al, cls, al.len(), depth, false, existing) {
        let extra = FileV { name: extra_parts_file(), content: ContentV::Yaml(JVal::Arr(no_items())) };
        let with_extra = if present(existing, fs, extra_parts_file()) {
            fs
        } else {
            fs.push(extra)
        };
        let all = with_extra.push(FileV { name: "application.yaml"@, content: ContentV::Yaml(JVal::Obj(application_doc(app, parts))) });
        assert forall|i: int| 0 <= i < all.len() && existing.contains(#[trigger] all[i].name)
            implies all[i].name == "application.yaml"@ || exists|j: int| 0 <= j < al.len() && all[i].name == aggregate_file(al[j].1) by {
            if i < fs.len() {
                assert(all[i] == fs[i]);
            } else if i < with_extra.len() {
                assert(all[i] == extra);
            }
        }
    }
}

/// The part of an aggregate, listing its commands, is among some files.
pub open spec fn has_part(files: Seq<FileV>, a: AggregateV) -> bool {
    exists|i: int| 0 <= i < files.len() && #[trigger] files[i].name == aggregate_file(a) && lists_commands(files[i].content, a.commands)
}

proof fn lemma_has_part_extends(a: Seq<FileV>, b: Seq<FileV>, ag: AggregateV)
    requires
        extends(a, b),
        has_part(a, ag),
    ensures
        has_part(b, ag),
{
    let i = choose|i: int| 0 <= i < a.len() && #[trigger] a[i].name == aggregate_file(ag) && lists_commands(a[i].content, ag.commands);
    assert(b.take(a.len() as int)[i] == b[i]);
    assert(b[i] == a[i]);
}

proof fn lemma_parts_upto(
    app: AppV,
    al: Seq<(Seq<char>, AggregateV)>,
    cls: Seq<Seq<(Seq<char>, SchemaObjectV)>>,
    n: nat,
    depth: nat,
    mock_mode: bool,
    existing: Seq<Seq<char>>,
)
    requires
        listings(app, al, cls),
        aggregates_keyed(app.aggregates),
        n <= al.len(),
    ensures
        aggregates_upto(app, al, cls, n, depth, mock_mode, existing) matches Some((fs, _))
            ==> forall|j: int| 0 <= j < n ==> has_part(fs, (#[trigger] al[j]).1),
    decreases n,
{
    if n > 0 {
        lemma_parts_upto(app, al, cls, (n - 1) as nat, depth, mock_mode, existing);
        if let Some((fs, parts)) = aggregates_upto(app, al, cls, (n - 1) as nat, depth, mock_mode, existing) {
            let k = n - 1;
            let a = al[k].1;
            lemma_listing_entry(app.aggregates, al, k);
            assert(keyed_by_name(a.commands));
            assert(is_listing(al[k].1.commands, cls[k]));
            law_part_lists_every_command(app, a, cls[k], depth, mock_mode, existing, fs);
            lemma_commands_files_extend(app, cls[k], depth, mock_mode, existing, fs);
            if let Some((fs1, entries)) = commands_files(app, cls[k], depth, mock_mode, existing, fs) {
                let fs2 = fs1.push(FileV { name: aggregate_file(a), content: ContentV::Yaml(JVal::Obj(aggregate_doc(app, a, entries))) });
                lemma_extends_push(fs1, fs2.last());
                assert(fs1.push(fs2.last()) == fs2);
                lemma_extends_trans(fs, fs1, fs2);
                assert forall|j: int| 0 <= j < n implies has_part(fs2, (#[trigger] al[j]).1) by {
                    if j < k {
                        lemma_has_part_extends(fs, fs2, al[j].1);
                    } else {
                        assert(fs2[fs2.len() - 1].name == aggregate_file(a));
                    }
                }
            }
        }
    }
}

/// Every aggregate of the application has, among the files that the
/// generator writes, a part that lists exactly its commands, each with its
/// reducer, its validator and its description.
pub proof fn law_plan_parts_list_commands(
    app: AppV,
    al: Seq<(Seq<char>, AggregateV)>,
    cls: Seq<Seq<(Seq<char>, SchemaObjectV)>>,
    depth: nat,
    mock_mode: bool,
    existing: Seq<Seq<char>>,
)
    requires
        listings(app, al, cls),
        aggregates_keyed(app.aggregates),
    ensures
        plan_spec(app, al, cls, depth, mock_mode, existing) matches Some(fs)
            ==> forall|e: Seq<char>| #[trigger] app.aggregates.contains_key(e) ==> has_part(fs, app.aggregates[e]),
{
    lemma_parts_upto(app, al, cls, al.len(), depth, mock_mode, existing);
    if let Some((fs, parts)) = aggregates_upto(app, al, cls, al.len(), depth, mock_mode, existing) {
        let extra = FileV { name: extra_parts_file(), content: ContentV::Yaml(JVal::Arr(no_items())) };
        let with_extra = if present(existing, fs, extra_parts_file()) {
            fs
        } else {
            fs.push(extra)
        };
        let last = FileV { name: "application.yaml"@, content: ContentV::Yaml(JVal::Obj(application_doc(app, parts))) };
        let all = with_extra.push(last);
        assert(extends(fs, with_extra)) by {
            if !present(existing, fs, extra_parts_file()) {
                lemma_extends_push(fs, extra);
            } else {
                assert(fs.take(fs.len() as int) =~= fs);
            }
        }
        lemma_extends_push(with_extra, last);
        lemma_extends_trans(fs, with_extra, all);
        assert forall|e: Seq<char>| #[trigger] app.aggregates.contains_key(e) implies has_part(all, app.aggregates[e]) by {
            let j = choose|j: int| 0 <= j < al.len() && al[j].0 == e;
            lemma_listing_entry(app.aggregates, al, j);
            assert(has_part(fs, al[j].1));
            lemma_has_part_extends(fs, all, al[j].1);
        }
    }
}

/// What the generator writes: the part of every aggregate, listed in the
/// application in the order in which the parts are written, then the
/// application last; and in mock mode the reducer and the validator of
/// every command.
pub proof fn law_plan_covers(
    app: AppV,
    al: Seq<(Seq<char>, AggregateV)>,
    cls: Seq<Seq<(Seq<char>, SchemaObjectV)>>,
    depth: nat,
    mock_mode: bool,
    existing: Seq<Seq<char>>,
)
    requires
        cls.len() == al.len(),
    ensures
        plan_spec(app, al, cls, depth, mock_mode, existing) matches Some(fs) ==> {
            &&& fs.len() >= 1
            &&& fs.last().name == "application.yaml"@
            &&& fs.last().content == ContentV::Yaml(
                JVal::Obj(application_doc(app, Seq::new(al.len(), |j: int| JVal::Str(aggregate_file(al[j].1))))),
            )
            &&& (forall|j: int| 0 <= j < al.len() ==> written(fs, aggregate_file((#[trigger] al[j]).1)))
            &&& (mock_mode ==> forall|j: int, k: int| 0 <= j < al.len() && 0 <= k < cls[j].len()
                ==> written(fs, reducer_file((#[trigger] cls[j][k]).1.name)) && written(fs, validator_file(cls[j][k].1.name)))
        },
{
    lemma_aggregates_upto_extend(app, al, cls, al.len(), depth, mock_mode, existing);
    if let Some((fs, parts)) = aggregates_upto(app, al, cls, al.len(), depth, mock_mode, existing) {
        let with_extra = if present(existing, fs, extra_parts_file()) {
            fs
        } else {
            fs.push(FileV { name: extra_parts_file(), content: ContentV::Yaml(JVal::Arr(no_items())) })
        };
        let last = FileV { name: "application.yaml"@, content: ContentV::Yaml(JVal::Obj(application_doc(app, parts))) };
        let all = with_extra.push(last);
        assert(extends(fs, with_extra)) by {
            if !present(existing, fs, extra_parts_file()) {
                lemma_extends_push(fs, FileV { name: extra_parts_file(), content: ContentV::Yaml(JVal::Arr(no_items())) });
            } else {
                assert(fs.take(fs.len() as int) =~= fs);
            }
        }
        lemma_extends_push(with_extra, last);
        lemma_extends_trans(fs, with_extra, all);
        assert(parts =~= Seq::new(al.len(), |j: int| JVal::Str(aggregate_file(al[j].1))));
        assert forall|j: int| 0 <= j < al.len() implies written(all, aggregate_file((#[trigger] al[j]).1)) by {
            lemma_written_extends(fs, all, aggregate_file(al[j].1));
        }
        if mock_mode {
            assert forall|j: int, k: int| 0 <= j < al.len() && 0 <= k < cls[j].len()
                implies written(all, reducer_file((#[trigger] cls[j][k]).1.name)) && written(all, validator_file(cls[j][k].1.name)) by {
                lemma_written_extends(fs, all, reducer_file(cls[j][k].1.name));
                lemma_written_extends(fs, all, validator_file(cls[j][k].1.name));
            }
        }
    }
}

} // verus!
