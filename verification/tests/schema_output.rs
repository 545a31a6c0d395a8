use spall_cli::ir::{HttpMethod, OperationInfo, ParamInfo, ParameterLocation, RequestBodyInfo, SchemaInfo};
use spall_cli::json::{to_json_text, Json};
use spall_cli::mcp::http::new_session_id;
use spall_cli::mcp::schema::{operation_input_schema, resolved_schema_to_json};
use spall_cli::output::{emit_plan, fallback_warning, table_layout, EmitPlan, OutputMode};

fn s(x: &str) -> String {
    x.to_string()
}

fn empty_schema() -> SchemaInfo {
    SchemaInfo {
        schema_type: None,
        format: None,
        description: None,
        default: None,
        enum_values: Vec::new(),
        nullable: false,
        is_recursive: false,
        pattern: None,
        min_length: None,
        max_length: None,
        minimum: None,
        maximum: None,
        multiple_of: None,
        exclusive_minimum: false,
        exclusive_maximum: false,
        min_items: None,
        max_items: None,
        unique_items: false,
        additional_properties: true,
        properties: Vec::new(),
        items: None,
    }
}

fn typed(t: &str) -> SchemaInfo {
    let mut x = empty_schema();
    x.schema_type = Some(s(t));
    x
}

fn at<'a>(j: &'a Json, path: &[&str]) -> Option<&'a Json> {
    let mut cur = j;
    for k in path {
        cur = cur.get(k)?;
    }
    Some(cur)
}

fn text_at(j: &Json, path: &[&str]) -> Option<String> {
    at(j, path).map(|v| to_json_text(v))
}

fn num(n: i64) -> Json {
    Json::Number(n.to_string())
}

#[test]
fn scalar_string() {
    let mut x = typed("string");
    x.format = Some(s("uuid"));
    x.min_length = Some(36);
    x.max_length = Some(36);
    let v = resolved_schema_to_json(&x);
    assert_eq!(text_at(&v, &["type"]), Some(s("\"string\"")));
    assert_eq!(text_at(&v, &["format"]), Some(s("\"uuid\"")));
    assert_eq!(text_at(&v, &["minLength"]), Some(s("36")));
    assert_eq!(text_at(&v, &["maxLength"]), Some(s("36")));
}

#[test]
fn integer_with_minimum_maximum() {
    let mut x = typed("integer");
    x.minimum = Some(num(1));
    x.maximum = Some(num(100));
    let v = resolved_schema_to_json(&x);
    assert_eq!(text_at(&v, &["type"]), Some(s("\"integer\"")));
    assert_eq!(text_at(&v, &["minimum"]), Some(s("1")));
    assert_eq!(text_at(&v, &["maximum"]), Some(s("100")));
}

#[test]
fn exclusive_minimum_maps_to_jsonschema_value() {
    let mut x = typed("number");
    x.minimum = Some(num(0));
    x.exclusive_minimum = true;
    let v = resolved_schema_to_json(&x);
    assert_eq!(text_at(&v, &["exclusiveMinimum"]), Some(s("0")));
    assert!(v.get("minimum").is_none());
}

#[test]
fn nullable_string_emits_type_union() {
    let mut x = typed("string");
    x.nullable = true;
    let v = resolved_schema_to_json(&x);
    assert_eq!(text_at(&v, &["type"]), Some(s("[\"string\",\"null\"]")));
}

#[test]
fn nullable_without_type_is_pure_null() {
    let mut x = empty_schema();
    x.nullable = true;
    let v = resolved_schema_to_json(&x);
    assert_eq!(text_at(&v, &["type"]), Some(s("\"null\"")));
}

#[test]
fn array_recurses_into_items() {
    let mut arr = typed("array");
    arr.items = Some(Box::new(typed("integer")));
    arr.min_items = Some(1);
    arr.unique_items = true;
    let v = resolved_schema_to_json(&arr);
    assert_eq!(text_at(&v, &["type"]), Some(s("\"array\"")));
    assert_eq!(text_at(&v, &["items", "type"]), Some(s("\"integer\"")));
    assert_eq!(text_at(&v, &["minItems"]), Some(s("1")));
    assert_eq!(text_at(&v, &["uniqueItems"]), Some(s("true")));
}

#[test]
fn enum_preserved() {
    let mut x = typed("string");
    x.enum_values = vec![Json::Str(s("red")), Json::Str(s("green")), Json::Str(s("blue"))];
    let v = resolved_schema_to_json(&x);
    assert_eq!(text_at(&v, &["enum"]), Some(s("[\"red\",\"green\",\"blue\"]")));
}

#[test]
fn nested_object_with_properties() {
    let mut outer = typed("object");
    outer.properties.push((s("name"), typed("string")));
    outer.additional_properties = false;
    let v = resolved_schema_to_json(&outer);
    assert_eq!(text_at(&v, &["type"]), Some(s("\"object\"")));
    assert_eq!(text_at(&v, &["properties", "name", "type"]), Some(s("\"string\"")));
    assert_eq!(text_at(&v, &["additionalProperties"]), Some(s("false")));
}

#[test]
fn additional_properties_true_is_implicit() {
    let x = typed("object");
    let v = resolved_schema_to_json(&x);
    assert!(v.get("additionalProperties").is_none());
}

#[test]
fn recursive_collapses_to_marker() {
    let mut x = typed("object");
    x.is_recursive = true;
    let v = resolved_schema_to_json(&x);
    assert_eq!(text_at(&v, &["description"]), Some(s("\"cyclic schema omitted\"")));
    assert!(v.get("type").is_none());
}

#[test]
fn default_value_preserved() {
    let mut x = typed("integer");
    x.default = Some(num(42));
    let v = resolved_schema_to_json(&x);
    assert_eq!(text_at(&v, &["default"]), Some(s("42")));
}

#[test]
fn operation_input_schema_includes_params_and_body() {
    let mut body_schema = typed("object");
    body_schema.properties.push((s("note"), typed("string")));
    let op = OperationInfo {
        operation_id: s("createPet"),
        method: HttpMethod::Post,
        path_template: s("/pets/{petId}"),
        summary: None,
        description: None,
        deprecated: false,
        parameters: vec![
            ParamInfo {
                name: s("petId"),
                location: ParameterLocation::Path,
                required: true,
                deprecated: false,
                style: s("simple"),
                explode: false,
                description: Some(s("Pet ID")),
                cli_name: None,
                schema: typed("integer"),
            },
            ParamInfo {
                name: s("name"),
                location: ParameterLocation::Query,
                required: false,
                deprecated: false,
                style: s("form"),
                explode: true,
                description: None,
                cli_name: None,
                schema: typed("string"),
            },
        ],
        request_body: Some(RequestBodyInfo {
            description: Some(s("Pet note")),
            required: true,
            content: vec![(s("application/json"), Some(body_schema))],
        }),
        tags: Vec::new(),
        mcp_auth_profile: None,
        mcp_annotations: None,
    };
    let v = operation_input_schema(&op);
    assert_eq!(text_at(&v, &["type"]), Some(s("\"object\"")));
    assert_eq!(text_at(&v, &["properties", "petId", "type"]), Some(s("\"integer\"")));
    assert_eq!(text_at(&v, &["properties", "name", "type"]), Some(s("\"string\"")));
    assert_eq!(text_at(&v, &["properties", "body", "type"]), Some(s("\"object\"")));
    assert_eq!(text_at(&v, &["properties", "body", "properties", "note", "type"]), Some(s("\"string\"")));
    let required = match at(&v, &["required"]) {
        Some(Json::Array(items)) => items.iter().map(|x| to_json_text(x)).collect::<Vec<_>>(),
        _ => panic!("required must be an array"),
    };
    assert!(required.contains(&s("\"petId\"")));
    assert!(required.contains(&s("\"body\"")));
    assert!(!required.contains(&s("\"name\"")));
    assert_eq!(text_at(&v, &["additionalProperties"]), Some(s("false")));
    let pet_id_desc = match at(&v, &["properties", "petId", "description"]) {
        Some(Json::Str(d)) => d.clone(),
        _ => panic!("description must be a string"),
    };
    assert!(pet_id_desc.contains("(in: path)"));
    let name_desc = match at(&v, &["properties", "name", "description"]) {
        Some(Json::Str(d)) => d.clone(),
        _ => panic!("description must be a string"),
    };
    assert!(name_desc.contains("(in: query)"));
}

#[test]
fn table_mode_non_array_fallback() {
    let value = Json::Str(s("hello"));
    assert!(table_layout(&value).is_none());
}

#[test]
fn csv_mode_non_array_fallback() {
    let value = Json::Str(s("hello"));
    assert!(table_layout(&value).is_none());
    let mixed = Json::Array(vec![Json::Object(vec![]), num(1)]);
    assert!(table_layout(&mixed).is_none());
}

#[test]
fn table_layout_collects_headers_in_first_seen_order() {
    let rows = Json::Array(vec![
        Json::Object(vec![(s("id"), num(1)), (s("name"), Json::Str(s("a")))]),
        Json::Object(vec![(s("id"), num(2)), (s("tag"), Json::Str(s("x")))]),
    ]);
    let (headers, cells) = table_layout(&rows).unwrap();
    assert_eq!(headers, vec![s("id"), s("name"), s("tag")]);
    assert_eq!(cells.len(), 2);
    assert_eq!(cells[0][0], "1");
}

#[test]
fn session_ids_are_thirty_two_hex_chars() {
    let sid = new_session_id();
    assert_eq!(sid.len(), 32);
    assert!(sid.chars().all(|c| c.is_ascii_hexdigit()));
}

#[test]
fn session_ids_are_unique() {
    let a = new_session_id();
    let b = new_session_id();
    assert_ne!(a, b, "two consecutive ids must differ");
}

#[test]
fn emit_plan_by_mode_and_body() {
    assert!(emit_plan(OutputMode::Table, true, true) == EmitPlan::Save);
    assert!(emit_plan(OutputMode::Yaml, false, true) == EmitPlan::Structured);
    assert!(emit_plan(OutputMode::Csv, false, false) == EmitPlan::FallbackRaw);
    assert!(emit_plan(OutputMode::Pretty, false, true) == EmitPlan::PrettyJson);
    assert!(emit_plan(OutputMode::Pretty, false, false) == EmitPlan::Raw);
    assert!(emit_plan(OutputMode::Raw, false, true) == EmitPlan::Raw);
    assert_eq!(
        fallback_warning(OutputMode::Table),
        "Warning: expected JSON for table output, got non-JSON body. Falling back to raw."
    );
}
