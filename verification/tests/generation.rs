use jsonstreams_gen::common::{read_json, render, Content, OutputFile};
use jsonstreams_gen::model::{extract, App, Field, Related};
use jsonstreams_gen::openapi;
use jsonstreams_gen::streams::{self, add_prefix};

const MODEL: &str = r##"{
  "boundedContext": "Shop",
  "version": 2,
  "domainEvents": {
    "e1": {
      "event": "OrderPlaced",
      "aggregateRoot": {"$ref": "#/schemas/entities/Order"},
      "command": {"$ref": "#/schemas/commands/PlaceOrder"},
      "acceptanceCriteria": ["lines exist"]
    }
  },
  "schemas": {
    "entities": {
      "Order": {
        "description": "An order",
        "fields": [{"name": "id", "data_type": "string"}, {"name": "total", "data_type": "number"}],
        "required": ["id"]
      },
      "Customer": {"fields": [{"name": "name", "data_type": "string"}], "required": ["name"]}
    },
    "valueObjects": {
      "Address": {"fields": [{"name": "city", "data_type": "string"}, {"name": "zip"}], "required": ["city"]}
    },
    "commands": {
      "PlaceOrder": {
        "fields": [
          {"name": "id", "data_type": "string"},
          {"name": "customer", "relatedEntity": {"$ref": "#/schemas/entities/Customer"}},
          {"name": "address", "relatedEntity": {"$ref": "#/schemas/valueObjects/Address"}},
          {"name": "items", "relatedEntity": {"$ref": "#/schemas/entities/Customer"}, "array": true},
          {"name": "paid", "data_type": "boolean"}
        ],
        "required": ["id", "customer"]
      }
    }
  }
}"##;

fn app_of(model: &str) -> App {
    extract(&read_json(model).ok().unwrap()).ok().unwrap()
}

fn yaml_value(file: &OutputFile) -> serde_json::Value {
    serde_yaml::from_str(&render(&file.content).ok().unwrap()).unwrap()
}

fn file<'a>(files: &'a [OutputFile], name: &str) -> &'a OutputFile {
    files.iter().find(|f| f.name == name).unwrap()
}

#[test]
fn prefixing_a_field_keeps_the_rest() {
    let f = Field {
        data_type: "object".to_string(),
        description: Some("d".to_string()),
        name: "city".to_string(),
        related: Some(Related::Entity("Town".to_string())),
        required: true,
    };
    let p = add_prefix(&f, "address");
    assert_eq!(p.name, "address.city");
    assert_eq!(p.data_type, "object");
    assert_eq!(p.description.as_deref(), Some("d"));
    assert!(p.required);
    assert!(matches!(p.related, Some(Related::Entity(t)) if t == "Town"));
}

fn json(text: &str) -> serde_json::Value {
    serde_json::from_str(text).unwrap()
}

#[test]
fn application_files() {
    let app = app_of(MODEL);
    let files = streams::generate(&app, false, &vec![]).unwrap();
    let names: Vec<&str> = files.iter().map(|f| f.name.as_str()).collect();
    assert_eq!(names, vec![
        "reducers/PlaceOrder.jq",
        "validators/PlaceOrder.yaml",
        "order/order.yaml",
        "extra-parts.yaml",
        "application.yaml",
    ]);
    assert!(matches!(&files[0].content, Content::Text(t) if t == ".state + (.command | del(._command) | del(._languages) | del(._seq))"));
    assert_eq!(render(&files[0].content).ok().unwrap(), ".state + (.command | del(._command) | del(._languages) | del(._seq))");
    assert_eq!(yaml_value(&files[4]), json(r#"{"application": "shop", "version": "2", "parts": ["order/order.yaml", "extra-parts.yaml"]}"#));
    assert_eq!(yaml_value(&files[3]), json("[]"));
    assert_eq!(
        yaml_value(&files[2]),
        json(r#"{
            "type": "aggregate",
            "name": "order",
            "aggregateType": "shop-order",
            "description": "An order",
            "commands": {
                "PlaceOrder": {
                    "reducer": "reducers/PlaceOrder.jq",
                    "validator": "validators/PlaceOrder.yaml",
                    "description": "lines exist"
                }
            }
        }"#)
    );
}

#[test]
fn validator_conditions_descend_into_related_objects() {
    let app = app_of(MODEL);
    let files = streams::generate(&app, false, &vec![]).unwrap();
    assert_eq!(
        yaml_value(file(&files, "validators/PlaceOrder.yaml")),
        json(r#"{"conditions": [
            {"id": {"$type": "string", "$code": "STRING"}},
            {"id": {"$exists": true, "$code": "REQUIRED"}},
            {"customer": {"$type": "object", "$code": "OBJECT"}},
            {"customer": {"$exists": true, "$code": "REQUIRED"}},
            {"customer.name": {"$type": "string", "$code": "STRING"}},
            {"customer.name": {"$exists": true, "$code": "REQUIRED"}},
            {"address": {"$type": "object", "$code": "OBJECT"}},
            {"address.city": {"$type": "string", "$code": "STRING"}},
            {"address.city": {"$exists": true, "$code": "REQUIRED"}},
            {"address.zip": {"$type": "string", "$code": "STRING"}},
            {"items": {"$type": "array", "$code": "ARRAY"}},
            {"paid": {"$type": "bool", "$code": "BOOL"}}
        ]}"#)
    );
}

#[test]
fn existing_files_are_kept() {
    let app = app_of(MODEL);
    let existing = vec![
        "reducers/PlaceOrder.jq".to_string(),
        "validators/PlaceOrder.yaml".to_string(),
        "extra-parts.yaml".to_string(),
    ];
    let files = streams::generate(&app, false, &existing).unwrap();
    let names: Vec<&str> = files.iter().map(|f| f.name.as_str()).collect();
    assert_eq!(names, vec!["order/order.yaml", "application.yaml"]);
}

#[test]
fn mock_mode_rewrites_reducers_and_validators() {
    let app = app_of(MODEL);
    let existing = vec![
        "reducers/PlaceOrder.jq".to_string(),
        "validators/PlaceOrder.yaml".to_string(),
        "extra-parts.yaml".to_string(),
    ];
    let files = streams::generate(&app, true, &existing).unwrap();
    let names: Vec<&str> = files.iter().map(|f| f.name.as_str()).collect();
    assert_eq!(names, vec!["reducers/PlaceOrder.jq", "validators/PlaceOrder.yaml", "order/order.yaml", "application.yaml"]);
}

#[test]
fn commands_of_the_same_name_share_their_files() {
    let model = MODEL.replace(
        r#""e1": {"#,
        r##""e0": {"aggregateRoot": {"$ref": "#/schemas/entities/Customer"}, "command": {"$ref": "#/schemas/commands/PlaceOrder"}},
    "e1": {"##,
    );
    let app = app_of(&model);
    let files = streams::generate(&app, false, &vec![]).unwrap();
    let reducers = files.iter().filter(|f| f.name == "reducers/PlaceOrder.jq").count();
    let validators = files.iter().filter(|f| f.name == "validators/PlaceOrder.yaml").count();
    assert_eq!((reducers, validators), (1, 1));
    let mocked = streams::generate(&app, true, &vec![]).unwrap();
    let reducers = mocked.iter().filter(|f| f.name == "reducers/PlaceOrder.jq").count();
    assert_eq!(reducers, 2);
    let application = yaml_value(file(&files, "application.yaml"));
    let parts = application.get("parts").unwrap().as_array().unwrap();
    assert_eq!(parts.len(), 3);
    assert_eq!(parts[2], json("\"extra-parts.yaml\""));
}

#[test]
fn cyclic_relations_have_no_validator() {
    let model = r##"{
      "boundedContext": "Loop",
      "domainEvents": {"e": {"aggregateRoot": {"$ref": "#/schemas/entities/Node"}, "command": {"$ref": "#/schemas/commands/Add"}}},
      "schemas": {
        "entities": {"Node": {"fields": [{"name": "next", "relatedEntity": {"$ref": "#/schemas/entities/Node"}}]}},
        "commands": {"Add": {"fields": [{"name": "node", "relatedEntity": {"$ref": "#/schemas/entities/Node"}}]}}
      }
    }"##;
    let app = app_of(model);
    assert!(streams::generate(&app, false, &vec![]).is_none());
    let existing = vec!["validators/Add.yaml".to_string()];
    let files = streams::generate(&app, false, &existing).unwrap();
    assert!(files.iter().all(|f| f.name != "validators/Add.yaml"));
}

#[test]
fn unknown_related_objects_add_no_conditions() {
    let model = MODEL.replace("#/schemas/valueObjects/Address", "#/schemas/valueObjects/Missing");
    let app = app_of(&model);
    let files = streams::generate(&app, false, &vec![]).unwrap();
    let validator = yaml_value(file(&files, "validators/PlaceOrder.yaml"));
    let conditions = validator.get("conditions").unwrap().as_array().unwrap();
    assert_eq!(conditions.len(), 9);
}

#[test]
fn openapi_http_specification() {
    let app = app_of(MODEL);
    let files = openapi::generate(&app, None);
    assert_eq!(files.len(), 2);
    assert_eq!(files[0].name, "http.yaml");
    assert_eq!(files[1].name, "sse.yaml");
    let http = yaml_value(&files[0]);
    assert_eq!(http.get("openapi"), Some(&json("\"3.2.0\"")));
    assert_eq!(http.get("info"), Some(&json(r#"{"title": "Shop", "version": "2"}"#)));
    let paths = http.get("paths").unwrap();
    assert_eq!(
        paths.get("/shop/order").unwrap().pointer("/post/summary"),
        Some(&json("\"Search Order\""))
    );
    assert_eq!(
        paths.get("/shop/order/{id}").unwrap().pointer("/get/responses/200/content/application~1json/schema/$ref"),
        Some(&json("\"#/components/schemas/EntityOrder\""))
    );
    assert_eq!(
        paths.get("/shop/order/{id}").unwrap().pointer("/post/requestBody/content/application~1json/schema/$ref"),
        Some(&json("\"#/components/schemas/CommandsOrder\""))
    );
    let schemas = http.pointer("/components/schemas").unwrap();
    assert_eq!(
        schemas.get("CommandsOrder"),
        Some(&json(r##"{"anyOf": [{"$ref": "#/components/schemas/CommandOrderPlaceOrder"}]}"##))
    );
    let command = schemas.get("CommandOrderPlaceOrder").unwrap();
    assert_eq!(
        command.get("required"),
        Some(&json(r#"["id", "customer", "_id", "_corr", "_type", "_command"]"#))
    );
    assert_eq!(command.pointer("/properties/_type/const"), Some(&json("\"shop-order\"")));
    assert_eq!(command.pointer("/properties/_command/const"), Some(&json("\"PlaceOrder\"")));
    assert_eq!(command.pointer("/properties/_seq"), Some(&json(r#"{"type": "integer", "minimum": 0}"#)));
    assert_eq!(command.pointer("/properties/customer/$ref"), Some(&json("\"#/components/schemas/EntityCustomer\"")));
    assert_eq!(
        command.pointer("/properties/items"),
        Some(&json(r##"{"type": "array", "items": {"$ref": "#/components/schemas/EntityCustomer"}}"##))
    );
    assert_eq!(command.pointer("/properties/_error"), None);
    assert_eq!(
        schemas.get("EntityOrder"),
        Some(&json(r#"{"type": "object", "description": "An order", "required": ["id"],
            "properties": {"id": {"type": "string"}, "total": {"type": "number"}}}"#))
    );
    assert_eq!(
        schemas.get("ValueObjectAddress"),
        Some(&json(r#"{"type": "object", "required": ["city"],
            "properties": {"city": {"type": "string"}, "zip": {"type": "string"}}}"#))
    );
}

#[test]
fn openapi_sse_specification() {
    let app = app_of(MODEL);
    let files = openapi::generate(&app, None);
    let sse = yaml_value(&files[1]);
    assert_eq!(sse.pointer("/paths/~1/get/tags"), Some(&json(r#"["ServerSentEvents"]"#)));
    assert_eq!(
        sse.pointer("/paths/~1/get/responses/200/content/text~1event-stream/itemSchema"),
        Some(&json(r##"{"$ref": "#/components/schemas/Sse"}"##))
    );
    assert_eq!(
        sse.pointer("/components/schemas/Sse"),
        Some(&json(r##"{"anyOf": [{"$ref": "#/components/schemas/EntityOrder"}, {"$ref": "#/components/schemas/CommandOrderPlaceOrder"}]}"##))
    );
    let command = sse.pointer("/components/schemas/CommandOrderPlaceOrder").unwrap();
    assert_eq!(command.pointer("/properties/_error"), Some(&json(r#"{"type": "boolean"}"#)));
    assert_eq!(
        command.pointer("/properties/errors/items/properties/code"),
        Some(&json(r#"{"type": "string"}"#))
    );
}

#[test]
fn openapi_template_is_kept() {
    let app = app_of(MODEL);
    let template = read_json(r#"{"info": {"description": "Shop API", "title": "old"}, "servers": [{"url": "https://x"}], "rate": 1.5}"#).ok().unwrap();
    let files = openapi::generate(&app, Some(&template));
    let http = yaml_value(&files[0]);
    assert_eq!(http.get("info"), Some(&json(r#"{"title": "Shop", "version": "2", "description": "Shop API"}"#)));
    assert_eq!(http.get("servers"), Some(&json(r#"[{"url": "https://x"}]"#)));
    assert_eq!(http.get("rate"), Some(&json("1.5")));
    let sse = yaml_value(&files[1]);
    assert_eq!(sse.get("servers"), Some(&json(r#"[{"url": "https://x"}]"#)));
}

#[test]
fn entity_schemas_named_like_aggregates_get_technical_properties() {
    let model = MODEL.replace("#/schemas/entities/Order\"}", "#/schemas/entities/EntityOrder\"}");
    let app = app_of(&model);
    assert!(app.aggregates.get(&"EntityOrder".to_string()).is_some());
    let files = openapi::generate(&app, None);
    let http = yaml_value(&files[0]);
    let order = http.pointer("/components/schemas/EntityOrder").unwrap();
    assert_eq!(order.pointer("/properties/_type/const"), Some(&json("\"shop-entityorder\"")));
    assert_eq!(order.get("required"), Some(&json(r#"["id", "_id", "_corr", "_type", "_seq"]"#)));
    let plain = app_of(MODEL);
    let files = openapi::generate(&plain, None);
    let http = yaml_value(&files[0]);
    assert_eq!(http.pointer("/components/schemas/EntityOrder/properties/_type"), None);
}

#[test]
fn schema_maps_hold_what_was_extracted() {
    let app = app_of(MODEL);
    let customer = app.entities.get(&"Customer".to_string()).unwrap();
    assert_eq!(customer.fields.to_vec().len(), 1);
}

#[test]
fn acyclic_nesting_as_deep_as_the_objects_fits() {
    let model = r##"{
      "boundedContext": "Deep",
      "domainEvents": {"e": {"aggregateRoot": {"$ref": "#/schemas/entities/A"}, "command": {"$ref": "#/schemas/commands/Make"}}},
      "schemas": {
        "entities": {"A": {"fields": [{"name": "b", "relatedEntity": {"$ref": "#/schemas/valueObjects/B"}}]}},
        "valueObjects": {
          "B": {"fields": [{"name": "c", "relatedEntity": {"$ref": "#/schemas/valueObjects/C"}}]},
          "C": {"fields": [{"name": "v", "data_type": "string"}]}
        },
        "commands": {"Make": {"fields": [{"name": "a", "relatedEntity": {"$ref": "#/schemas/entities/A"}}]}}
      }
    }"##;
    let app = app_of(model);
    let files = streams::generate(&app, false, &vec![]).unwrap();
    assert_eq!(
        yaml_value(file(&files, "validators/Make.yaml")),
        json(r#"{"conditions": [
            {"a": {"$type": "object", "$code": "OBJECT"}},
            {"a.b": {"$type": "object", "$code": "OBJECT"}},
            {"a.b.c": {"$type": "object", "$code": "OBJECT"}},
            {"a.b.c.v": {"$type": "string", "$code": "STRING"}}
        ]}"#)
    );
}

#[test]
fn cycles_that_no_command_reaches_do_no_harm() {
    let model = r##"{
      "boundedContext": "Loop",
      "domainEvents": {"e": {"aggregateRoot": {"$ref": "#/schemas/entities/Node"}, "command": {"$ref": "#/schemas/commands/Add"}}},
      "schemas": {
        "entities": {"Node": {"fields": [{"name": "next", "relatedEntity": {"$ref": "#/schemas/entities/Node"}}]}},
        "commands": {"Add": {"fields": [{"name": "label", "data_type": "string"}]}}
      }
    }"##;
    let app = app_of(model);
    let files = streams::generate(&app, true, &vec![]).unwrap();
    assert_eq!(
        yaml_value(file(&files, "validators/Add.yaml")),
        json(r#"{"conditions": [{"label": {"$type": "string", "$code": "STRING"}}]}"#)
    );
}

#[test]
fn stream_command_schemas_add_refusals_to_the_http_ones() {
    let model = MODEL.replace(
        r#""e1": {"#,
        r##""e0": {"aggregateRoot": {"$ref": "#/schemas/entities/Customer"}, "command": {"$ref": "#/schemas/commands/PlaceOrder"}},
    "e1": {"##,
    );
    let app = app_of(&model);
    let files = openapi::generate(&app, None);
    let http = yaml_value(&files[0]);
    let sse = yaml_value(&files[1]);
    let refusal = json(r#"{"_error": {"type": "boolean"}, "errors": {"type": "array", "items": {"type": "object", "properties": {"location": {"type": "string"}, "code": {"type": "string"}}}}}"#);
    for name in ["CommandOrderPlaceOrder", "CommandCustomerPlaceOrder"] {
        let plain = http.pointer(&format!("/components/schemas/{}", name)).unwrap().clone();
        let mut expected = plain.clone();
        let properties = expected.get_mut("properties").unwrap().as_object_mut().unwrap();
        for (k, v) in refusal.as_object().unwrap() {
            properties.insert(k.clone(), v.clone());
        }
        assert_eq!(sse.pointer(&format!("/components/schemas/{}", name)).unwrap(), &expected);
    }
}
