use jsonstreams_gen::common::{read_json, read_template, read_yaml};
use jsonstreams_gen::error::ToolError;
use jsonstreams_gen::model::{extract, verify_fields, App, Related};

const MODEL: &str = r##"{
  "boundedContext": "Shop",
  "version": 3,
  "domainEvents": {
    "e1": {
      "event": "OrderPlaced",
      "aggregateRoot": {"$ref": "#/schemas/entities/Order"},
      "command": {"$ref": "#/schemas/commands/PlaceOrder"},
      "acceptanceCriteria": ["the order has lines", 7, "the customer exists"]
    },
    "e2": {
      "event": "OrderCancelled",
      "aggregateRoot": {"$ref": "#/schemas/entities/Order"},
      "command": {"$ref": "#/schemas/commands/CancelOrder"}
    },
    "e3": {"event": "Ignored"},
    "e4": "not an object"
  },
  "schemas": {
    "entities": {
      "Order": {
        "description": "An order",
        "fields": [
          {"name": "id", "data_type": "string"},
          {"name": "lines", "relatedEntity": {"$ref": "#/schemas/valueObjects/Line"}, "array": true},
          {"name": "customer", "relatedEntity": {"$ref": "#/schemas/entities/Customer"}}
        ],
        "required": ["id"]
      },
      "Customer": {"fields": [{"name": "name", "data_type": "string"}], "required": ["name"]},
      "NotASchema": 5
    },
    "valueObjects": {
      "Line": {"fields": [{"name": "qty", "data_type": "number"}, {"name": "product"}], "required": ["qty"]}
    },
    "commands": {
      "PlaceOrder": {
        "fields": [
          {"name": "id", "data_type": "string"},
          {"name": "lines", "relatedEntity": {"$ref": "#/schemas/valueObjects/Line"}, "array": true},
          {"name": "note", "data_type": "string", "description": "free text"}
        ],
        "required": ["id", "lines"]
      },
      "CancelOrder": {"fields": [{"name": "id", "data_type": "string"}], "required": ["id"]}
    }
  }
}"##;

fn app() -> App {
    extract(&read_json(MODEL).ok().unwrap()).ok().unwrap()
}

#[test]
fn extracts_name_and_version() {
    let app = app();
    assert_eq!(app.name, "Shop");
    assert_eq!(app.version, "3");
}

#[test]
fn version_defaults_to_unknown() {
    let model = MODEL.replace("\"version\": 3,", "\"version\": \"x\",");
    let app = extract(&read_json(&model).ok().unwrap()).ok().unwrap();
    assert_eq!(app.version, "unknown");
    let model = MODEL.replace("\"version\": 3,", "\"version\": -12,");
    let app = extract(&read_json(&model).ok().unwrap()).ok().unwrap();
    assert_eq!(app.version, "-12");
}

#[test]
fn aggregates_merge_the_commands_of_their_events() {
    let app = app();
    let order = app.aggregates.get(&"Order".to_string()).unwrap();
    assert_eq!(order.entity, "Order");
    assert_eq!(order.commands.len(), 2);
    let place = order.commands.get(&"PlaceOrder".to_string()).unwrap();
    assert_eq!(place.name, "PlaceOrder");
    assert_eq!(place.description.as_deref(), Some("the order has lines\nthe customer exists"));
    let cancel = order.commands.get(&"CancelOrder".to_string()).unwrap();
    assert_eq!(cancel.description, None);
    assert!(app.aggregates.get(&"Customer".to_string()).is_none());
}

#[test]
fn fields_carry_types_relations_and_requirements() {
    let app = app();
    let order = app.aggregates.get(&"Order".to_string()).unwrap();
    let place = order.commands.get(&"PlaceOrder".to_string()).unwrap();
    let fields = place.fields.to_vec();
    assert_eq!(fields.len(), 3);
    assert_eq!(fields[0].name, "id");
    assert_eq!(fields[0].data_type, "string");
    assert!(fields[0].required);
    assert!(fields[0].related.is_none());
    assert_eq!(fields[1].name, "lines");
    assert_eq!(fields[1].data_type, "array");
    assert!(fields[1].required);
    assert!(matches!(&fields[1].related, Some(Related::ValueObject(v)) if v == "Line"));
    assert_eq!(fields[2].description.as_deref(), Some("free text"));
    assert!(!fields[2].required);
}

#[test]
fn entities_and_value_objects_by_name() {
    let app = app();
    assert_eq!(app.entities.len(), 2);
    let order = app.entities.get(&"Order".to_string()).unwrap();
    assert_eq!(order.description.as_deref(), Some("An order"));
    let fields = order.fields.to_vec();
    assert_eq!(fields[2].data_type, "object");
    assert!(matches!(&fields[2].related, Some(Related::Entity(e)) if e == "Customer"));
    let line = app.value_objects.get(&"Line".to_string()).unwrap();
    let fields = line.fields.to_vec();
    assert_eq!(fields[1].data_type, "string");
    assert!(!fields[1].required);
    assert!(app.entities.get(&"NotASchema".to_string()).is_none());
}

#[test]
fn missing_domain_events() {
    let model = r#"{"boundedContext": "Shop"}"#;
    assert!(matches!(extract(&read_json(model).ok().unwrap()), Err(ToolError::NoDomainEvents)));
}

#[test]
fn missing_bounded_context() {
    let model = r#"{"domainEvents": {}}"#;
    assert!(matches!(extract(&read_json(model).ok().unwrap()), Err(ToolError::NoBoundedContext)));
}

#[test]
fn empty_model_gives_an_empty_application() {
    let model = r#"{"boundedContext": "Empty", "domainEvents": {}}"#;
    let app = extract(&read_json(model).ok().unwrap()).ok().unwrap();
    assert_eq!(app.name, "Empty");
    assert_eq!(app.version, "unknown");
    assert_eq!(app.entities.len(), 0);
    assert!(verify_fields(&app).is_empty());
}

#[test]
fn event_without_command() {
    let model = r##"{"boundedContext": "S", "domainEvents": {"e": {"event": "Happened", "aggregateRoot": {"$ref": "#/schemas/entities/A"}}}}"##;
    assert!(matches!(extract(&read_json(model).ok().unwrap()), Err(ToolError::NoCommand(e)) if e == "Happened"));
    let model = r##"{"boundedContext": "S", "domainEvents": {"e": {"aggregateRoot": {"$ref": "#/schemas/entities/A"}}}}"##;
    assert!(matches!(extract(&read_json(model).ok().unwrap()), Err(ToolError::NoCommand(e)) if e == "unknown"));
}

#[test]
fn command_without_schema() {
    let model = r##"{"boundedContext": "S", "domainEvents": {"e": {"aggregateRoot": {"$ref": "#/schemas/entities/A"}, "command": {"$ref": "#/schemas/commands/C"}}}}"##;
    assert!(matches!(extract(&read_json(model).ok().unwrap()), Err(ToolError::NoSchema(r)) if r == "#/schemas/commands/C"));
    let model = r##"{"boundedContext": "S", "domainEvents": {"e": {"aggregateRoot": {"$ref": "#/schemas/entities/A"}, "command": {"$ref": "other.json#/C"}}}, "C": {}}"##;
    assert!(matches!(extract(&read_json(model).ok().unwrap()), Err(ToolError::NoSchema(r)) if r == "other.json#/C"));
}

#[test]
fn field_without_name() {
    let model = r#"{"boundedContext": "S", "domainEvents": {}, "schemas": {"entities": {"A": {"fields": [{"data_type": "string"}]}}}}"#;
    assert!(matches!(extract(&read_json(model).ok().unwrap()), Err(ToolError::FieldNoName)));
}

#[test]
fn reading_json() {
    assert!(matches!(read_json("{"), Err(ToolError::Json(_))));
    assert!(matches!(read_json("[1, 2]"), Err(ToolError::JsonObject)));
    assert!(read_json("{\"a\": 1.5}").is_ok());
}

#[test]
fn reading_yaml() {
    let o = read_yaml("a: 1\nb:\n  c: x\n").ok().unwrap();
    assert_eq!(o.get_integer("a"), Some(1));
    assert_eq!(o.get_object("b").and_then(|b| b.get_string("c")), Some("x".to_string()));
    assert!(matches!(read_yaml("- 1\n- 2\n"), Err(ToolError::JsonObject)));
    assert!(matches!(read_yaml("a: [1\n"), Err(ToolError::Yaml(_))));
}

#[test]
fn reading_templates() {
    let t = read_template("t.yml", "info:\n  title: x\n").ok().unwrap();
    assert!(t.get_object("info").is_some());
    let t = read_template("t.json", "{\"info\": {}}").ok().unwrap();
    assert!(t.get_object("info").is_some());
    assert!(matches!(read_template("t.txt", "{}"), Err(ToolError::JsonOrYaml)));
}

#[test]
fn warnings_about_fields_and_entities() {
    let app = app();
    let warnings = verify_fields(&app);
    assert_eq!(warnings.len(), 2);
    assert!(warnings.contains(&"The command PlaceOrder of aggregate Order has the field lines, which does not exists in the aggregate".to_string()));
    assert!(warnings.contains(&"The command PlaceOrder of aggregate Order has the field note, which does not exists in the aggregate".to_string()));
    let model = MODEL.replace("\"Order\": {\n        \"description\"", "\"Other\": {\n        \"description\"");
    let app = extract(&read_json(&model).ok().unwrap()).ok().unwrap();
    let warnings = verify_fields(&app);
    assert_eq!(warnings, vec![
        "The entity for aggregate Order is not defined".to_string(),
        "The entity for aggregate Order is not defined".to_string(),
    ]);
}

#[test]
fn extraction_does_not_depend_on_the_order_of_events() {
    let model = MODEL.replace(
        r#""e3": {"event": "Ignored"},"#,
        r##""e3": {"event": "OrderPlacedAgain", "aggregateRoot": {"$ref": "#/schemas/entities/Order"}, "command": {"$ref": "#/schemas/commands/CancelOrder"}},"##,
    );
    for _ in 0..20 {
        let app = extract(&read_json(&model).ok().unwrap()).ok().unwrap();
        assert_eq!(app.entities.len(), 2);
        let order = app.aggregates.get(&"Order".to_string()).unwrap();
        assert_eq!(order.commands.len(), 2);
        let place = order.commands.get(&"PlaceOrder".to_string()).unwrap();
        assert_eq!(place.description.as_deref(), Some("the order has lines\nthe customer exists"));
        let cancel = order.commands.get(&"CancelOrder".to_string()).unwrap();
        assert_eq!(cancel.description, None);
        assert_eq!(cancel.fields.to_vec().len(), 1);
    }
}

#[test]
fn references_follow_json_pointers() {
    let model = r##"{
      "boundedContext": "S",
      "domainEvents": {
        "e1": {"aggregateRoot": {"$ref": "#/schemas/entities/A"}, "command": {"$ref": "#/schemas/com~1mands/Do"}},
        "e2": {"aggregateRoot": {"$ref": "#/schemas/entities/A"}, "command": {"$ref": "#/list/1"}},
        "e3": {"aggregateRoot": {"$ref": "#/schemas/entities/A"}, "command": {"$ref": "#/schemas/til~0de/Go"}}
      },
      "list": [{"fields": []}, {"fields": [{"name": "x"}]}],
      "schemas": {
        "com/mands": {"Do": {"fields": [{"name": "d"}]}},
        "til~de": {"Go": {"fields": [{"name": "g"}]}}
      }
    }"##;
    let app = extract(&read_json(model).ok().unwrap()).ok().unwrap();
    let a = app.aggregates.get(&"A".to_string()).unwrap();
    assert_eq!(a.commands.len(), 3);
    assert_eq!(a.commands.get(&"Do".to_string()).unwrap().fields.to_vec()[0].name, "d");
    assert_eq!(a.commands.get(&"1".to_string()).unwrap().fields.to_vec()[0].name, "x");
    assert_eq!(a.commands.get(&"Go".to_string()).unwrap().fields.to_vec()[0].name, "g");
    let missing = model.replace("#/list/1", "#/list/2");
    assert!(matches!(extract(&read_json(&missing).ok().unwrap()), Err(ToolError::NoSchema(r)) if r == "#/list/2"));
}
