use spall_cli::ir::{ParamInfo, ParameterLocation, SchemaInfo};
use spall_cli::validate::{
    format_errors, media_type, preflight_body_source, preflight_param_errors, BodySource,
    ValidationError,
};

fn s(x: &str) -> String {
    x.to_string()
}

fn schema() -> SchemaInfo {
    SchemaInfo {
        schema_type: Some(s("string")),
        format: None,
        description: None,
        default: None,
        enum_values: Vec::new(),
        nullable: false,
        is_recursive: false,
        pattern: None,
        min_length: None,
        max_length: None,
        minimum: None,
        maximum: None,
        multiple_of: None,
        exclusive_minimum: false,
        exclusive_maximum: false,
        min_items: None,
        max_items: None,
        unique_items: false,
        additional_properties: true,
        properties: Vec::new(),
        items: None,
    }
}

fn param(name: &str, required: bool) -> ParamInfo {
    ParamInfo {
        name: s(name),
        location: ParameterLocation::Query,
        required,
        deprecated: false,
        style: s("form"),
        explode: false,
        description: None,
        cli_name: None,
        schema: schema(),
    }
}

#[test]
fn preflight_reports_missing_and_refused_values() {
    let params = vec![param("id", true), param("limit", false), param("q", false), param("page", true)];
    let values = vec![None, Some(s("abc")), Some(s("ok")), Some(s("2"))];
    let verdicts = vec![None, Some(s("expected integer")), None, None];
    let errs = preflight_param_errors(&params, &values, &verdicts);
    assert_eq!(errs.len(), 2);
    assert_eq!(errs[0].pointer, "/param/id");
    assert_eq!(errs[0].message, "required parameter 'id' is missing");
    assert_eq!(errs[1].pointer, "/param/limit");
    assert_eq!(errs[1].message, "expected integer");
    assert_eq!(
        format_errors(&errs),
        "  /param/id: required parameter 'id' is missing\n  /param/limit: expected integer"
    );
    assert_eq!(format_errors(&Vec::new()), "");
}

#[test]
fn preflight_body_comes_from_stdin_file_or_value() {
    assert!(matches!(preflight_body_source("-"), BodySource::Stdin));
    assert!(matches!(preflight_body_source("@body.json"), BodySource::File(p) if p == "body.json"));
    assert!(matches!(preflight_body_source("{\"a\":1}"), BodySource::Inline(t) if t == "{\"a\":1}"));
    let e = ValidationError { pointer: s("/body"), message: s("invalid JSON body: x") };
    assert_eq!(format_errors(&vec![e]), "  /body: invalid JSON body: x");
}

#[test]
fn media_type_drops_parameters() {
    assert_eq!(media_type("application/json; charset=utf-8"), "application/json");
    assert_eq!(media_type("  text/plain "), "text/plain");
    assert_eq!(media_type(""), "");
}
