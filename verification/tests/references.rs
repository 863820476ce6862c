use jsonstreams_gen::common::{file_name, path, template_format, TemplateFormat};
use jsonstreams_gen::error::ToolError;
use jsonstreams_gen::model::{name, pointer, schema_ref};
use jsonstreams_gen::openapi::{entity_ref, value_object_ref};
use jsonstreams_gen::streams::convert_data_type;
use jsonstreams_gen::text::integer_to_string;

#[test]
fn pointer_strips_the_hash_of_local_references() {
    assert_eq!(pointer("#/schemas/commands/PlaceOrder"), Some("/schemas/commands/PlaceOrder".to_string()));
    assert_eq!(pointer("#/"), Some("/".to_string()));
}

#[test]
fn pointer_refuses_other_references() {
    assert_eq!(pointer("schemas/commands/PlaceOrder"), None);
    assert_eq!(pointer("#"), None);
    assert_eq!(pointer(""), None);
    assert_eq!(pointer("#schemas"), None);
    assert_eq!(pointer("http://example.com/#/a"), None);
}

#[test]
fn name_is_the_last_segment() {
    assert_eq!(name("#/schemas/entities/Order").ok(), Some("Order".to_string()));
    assert_eq!(name("Order").ok(), Some("Order".to_string()));
    assert_eq!(name("a/b/").ok(), Some("".to_string()));
    assert_eq!(name("").ok(), Some("".to_string()));
}

#[test]
fn name_of_a_reference_and_of_its_pointer_agree() {
    for r in ["#/schemas/entities/Order", "#/x", "#/a/b/c/d"] {
        let p = pointer(r).unwrap();
        assert_eq!(name(&p).ok(), name(r).ok());
    }
}

#[test]
fn schema_ref_splits_kind_and_name() {
    let r = schema_ref("#/schemas/entities/Order").unwrap();
    assert_eq!(r.kind, "entities");
    assert_eq!(r.name, "Order");
    let v = schema_ref("#/schemas/valueObjects/Line").unwrap();
    assert_eq!(v.kind, "valueObjects");
    assert_eq!(v.name, "Line");
}

#[test]
fn schema_ref_refuses_other_shapes() {
    assert!(schema_ref("#/schemas/entities").is_none());
    assert!(schema_ref("#/schemas/entities/Order/x").is_none());
    assert!(schema_ref("#/definitions/entities/Order").is_none());
    assert!(schema_ref("/schemas/entities/Order").is_none());
    assert!(schema_ref("").is_none());
}

#[test]
fn data_types_convert() {
    assert_eq!(convert_data_type("array"), "array");
    assert_eq!(convert_data_type("boolean"), "bool");
    assert_eq!(convert_data_type("number"), "decimal");
    assert_eq!(convert_data_type("object"), "object");
    assert_eq!(convert_data_type("string"), "string");
    assert_eq!(convert_data_type("integer"), "unknown");
    assert_eq!(convert_data_type(""), "unknown");
    assert_eq!(convert_data_type("String"), "unknown");
}

#[test]
fn schema_references() {
    assert_eq!(entity_ref("Order"), "#/components/schemas/EntityOrder");
    assert_eq!(value_object_ref("Line"), "#/components/schemas/ValueObjectLine");
    assert_eq!(entity_ref(""), "#/components/schemas/Entity");
}

#[test]
fn paths_join_like_pathbuf() {
    assert_eq!(path("out", "a.yaml"), "out/a.yaml");
    assert_eq!(path("out/", "a.yaml"), "out/a.yaml");
    assert_eq!(path("", "a.yaml"), "a.yaml");
    assert_eq!(path("out", "/abs/a.yaml"), "/abs/a.yaml");
    assert_eq!(path(".", "reducers/x.jq"), "./reducers/x.jq");
    for (d, f) in [("out", "a.yaml"), ("out/", "a.yaml"), ("", "a"), ("x", "/y")] {
        let expected = std::path::PathBuf::from(d).join(f);
        assert_eq!(std::path::PathBuf::from(path(d, f)), expected);
    }
}

#[test]
fn template_formats_follow_the_extension() {
    assert!(matches!(template_format("template.json"), Ok(TemplateFormat::Json)));
    assert!(matches!(template_format("dir/template.json"), Ok(TemplateFormat::Json)));
    assert!(matches!(template_format(".json"), Ok(TemplateFormat::Json)));
    assert!(matches!(template_format("template.yaml"), Ok(TemplateFormat::Yaml)));
    assert!(matches!(template_format("a.b/template.yml"), Ok(TemplateFormat::Yaml)));
    assert!(matches!(template_format("template.txt"), Err(ToolError::JsonOrYaml)));
    assert!(matches!(template_format("template"), Err(ToolError::JsonOrYaml)));
    assert!(matches!(template_format(".yaml"), Err(ToolError::JsonOrYaml)));
    assert!(matches!(template_format("json"), Err(ToolError::JsonOrYaml)));
}

#[test]
fn schema_ref_undoes_building_a_reference() {
    for (kind, name) in [("entities", "Order"), ("commands", ""), ("", "x"), ("odd kind", "Name.with.dots")] {
        let r = schema_ref(&format!("#/schemas/{}/{}", kind, name)).unwrap();
        assert_eq!((r.kind.as_str(), r.name.as_str()), (kind, name));
    }
}

#[test]
fn template_formats_take_the_file_name_as_paths_do() {
    assert!(matches!(template_format("dir/t.yaml/"), Ok(TemplateFormat::Yaml)));
    assert!(matches!(template_format("dir/t.json/."), Ok(TemplateFormat::Json)));
    assert!(matches!(template_format("dir//t.yml//"), Ok(TemplateFormat::Yaml)));
    assert!(matches!(template_format("dir/t.json/.."), Err(ToolError::JsonOrYaml)));
    assert!(matches!(template_format("/"), Err(ToolError::JsonOrYaml)));
    assert!(matches!(template_format("."), Err(ToolError::JsonOrYaml)));
    assert!(matches!(template_format(""), Err(ToolError::JsonOrYaml)));
    assert!(matches!(template_format("t."), Err(ToolError::JsonOrYaml)));
}

#[test]
fn file_names_agree_with_std() {
    for p in ["a/b.json", "a/b.json/", "a/b/.", "./", ".", "..", "a/..", "/", "", "a//b", "./x", "../x/./", ".json", "a/.yaml/"] {
        let expected = std::path::Path::new(p).file_name().map(|n| n.to_string_lossy().into_owned());
        assert_eq!(file_name(p), expected, "{}", p);
        let ext_expected = std::path::Path::new(p).extension().map(|e| e.to_string_lossy().into_owned());
        let format = template_format(p);
        match ext_expected.as_deref() {
            Some("yaml") | Some("yml") => assert!(matches!(format, Ok(TemplateFormat::Yaml)), "{}", p),
            Some("json") => assert!(matches!(format, Ok(TemplateFormat::Json)), "{}", p),
            _ => assert_eq!(matches!(format, Ok(TemplateFormat::Json)), std::path::Path::new(p).ends_with(".json"), "{}", p),
        }
    }
}

#[test]
fn integers_are_written_in_decimal() {
    for i in [0i128, 7, 10, -1, -12, 305, i128::MAX, i128::MIN, 1_000_000_007] {
        assert_eq!(integer_to_string(i), i.to_string());
    }
}
