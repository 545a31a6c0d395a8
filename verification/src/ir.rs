//! The parts of a resolved API operation that the client's rules read:
//! its id, method, path template, parameters, tags and the vendor
//! extensions the MCP server honours.

use vstd::prelude::*;
use crate::json::Json;

verus! {

/// HTTP method of an operation.
#[derive(PartialEq, Eq, Structural, Clone, Copy)]
pub enum HttpMethod {
    Get,
    Post,
    Put,
    Patch,
    Delete,
    Head,
    Options,
    Trace,
}

/// Where a parameter goes in the request.
#[derive(PartialEq, Eq, Structural, Clone, Copy)]
pub enum ParameterLocation {
    Path,
    Query,
    Header,
    Cookie,
}

/// A resolved JSON schema node, with the numeric bounds already written as
/// JSON numbers.
pub struct SchemaInfo {
    pub schema_type: Option<String>,
    pub format: Option<String>,
    pub description: Option<String>,
    pub default: Option<Json>,
    pub enum_values: Vec<Json>,
    pub nullable: bool,
    /// The node closes a `$ref` cycle.
    pub is_recursive: bool,
    pub pattern: Option<String>,
    pub min_length: Option<u64>,
    pub max_length: Option<u64>,
    pub minimum: Option<Json>,
    pub maximum: Option<Json>,
    pub multiple_of: Option<Json>,
    pub exclusive_minimum: bool,
    pub exclusive_maximum: bool,
    pub min_items: Option<u64>,
    pub max_items: Option<u64>,
    pub unique_items: bool,
    pub additional_properties: bool,
    pub properties: Vec<(String, SchemaInfo)>,
    pub items: Option<Box<SchemaInfo>>,
}

/// A declared request body.
pub struct RequestBodyInfo {
    pub description: Option<String>,
    pub required: bool,
    /// `(media type, schema)` in declaration order.
    pub content: Vec<(String, Option<SchemaInfo>)>,
}

/// One declared parameter of an operation.
pub struct ParamInfo {
    pub name: String,
    pub location: ParameterLocation,
    pub required: bool,
    pub deprecated: bool,
    /// OpenAPI serialization `style` (`form`, `simple`, ...).
    pub style: String,
    pub explode: bool,
    pub description: Option<String>,
    /// The `x-cli-name` extension: the flag name used in place of `name`.
    pub cli_name: Option<String>,
    pub schema: SchemaInfo,
}

/// One operation of a resolved API spec.
pub struct OperationInfo {
    pub operation_id: String,
    pub method: HttpMethod,
    pub path_template: String,
    pub summary: Option<String>,
    pub description: Option<String>,
    pub deprecated: bool,
    pub parameters: Vec<ParamInfo>,
    pub request_body: Option<RequestBodyInfo>,
    pub tags: Vec<String>,
    /// The `x-mcp-auth-profile` extension, when it is a string.
    pub mcp_auth_profile: Option<String>,
    /// The members of the `x-mcp-annotations` extension, when it is an object.
    pub mcp_annotations: Option<Vec<(String, Json)>>,
}

/// How a parameter location is named.
pub open spec fn location_text(l: ParameterLocation) -> Seq<char> {
    match l {
        ParameterLocation::Path => "path"@,
        ParameterLocation::Query => "query"@,
        ParameterLocation::Header => "header"@,
        ParameterLocation::Cookie => "cookie"@,
    }
}

/// How a parameter location is named.
pub fn location_name(l: ParameterLocation) -> (r: &'static str)
    ensures
        r@ == location_text(l),
{
    match l {
        ParameterLocation::Path => "path",
        ParameterLocation::Query => "query",
        ParameterLocation::Header => "header",
        ParameterLocation::Cookie => "cookie",
    }
}

/// The method as it is written in a request line.
pub open spec fn method_text(m: HttpMethod) -> Seq<char> {
    match m {
        HttpMethod::Get => "GET"@,
        HttpMethod::Post => "POST"@,
        HttpMethod::Put => "PUT"@,
        HttpMethod::Patch => "PATCH"@,
        HttpMethod::Delete => "DELETE"@,
        HttpMethod::Head => "HEAD"@,
        HttpMethod::Options => "OPTIONS"@,
        HttpMethod::Trace => "TRACE"@,
    }
}

/// The method as it is written in a request line.
pub fn method_name(m: HttpMethod) -> (r: &'static str)
    ensures
        r@ == method_text(m),
{
    match m {
        HttpMethod::Get => "GET",
        HttpMethod::Post => "POST",
        HttpMethod::Put => "PUT",
        HttpMethod::Patch => "PATCH",
        HttpMethod::Delete => "DELETE",
        HttpMethod::Head => "HEAD",
        HttpMethod::Options => "OPTIONS",
        HttpMethod::Trace => "TRACE",
    }
}

/// The character views of a list of strings.
pub open spec fn str_views(v: Seq<String>) -> Seq<Seq<char>> {
    v.map_values(|s: String| s@)
}

} // verus!
