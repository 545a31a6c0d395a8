//! Resolved schema → JSON Schema (Draft 2020-12) for MCP `inputSchema`
//! payloads: a mechanical translation, no validation.

use vstd::prelude::*;
use crate::json::{self, Json, JsonV};
use crate::ir::{self, SchemaInfo, OperationInfo, RequestBodyInfo, ParameterLocation};
use crate::mcp::tools::{self, Members};
use crate::text;

verus! {


/// A member that is present only when the value is.
pub open spec fn opt_member(name: Seq<char>, v: Option<JsonV>) -> Members {
    match v {
        Some(x) => seq![(name, x)],
        None => seq![],
    }
}

/// The value of an optional JSON value.
pub open spec fn opt_json(o: Option<Json>) -> Option<JsonV> {
    match o {
        Some(d) => Some(d@),
        None => None,
    }
}

/// The `items` member of a node with an item schema.
pub open spec fn items_member(o: Option<Box<SchemaInfo>>) -> Members {
    match o {
        Some(b) => seq![("items"@, schema_json(*b))],
        None => seq![],
    }
}

/// A string member that is present only when the string is.
pub open spec fn str_member(name: Seq<char>, v: Option<String>) -> Members {
    match v {
        Some(x) => seq![(name, JsonV::Str(x@))],
        None => seq![],
    }
}

/// A counting member (`minLength`, ...) present only when set.
pub open spec fn count_member(name: Seq<char>, v: Option<u64>) -> Members {
    match v {
        Some(n) => seq![(name, JsonV::Number(text::dec(n as nat)))],
        None => seq![],
    }
}

/// The `type` member: a union with `null` for a nullable type, bare
/// `null` for a nullable node without a type.
pub open spec fn type_member(t: Option<String>, nullable: bool) -> Members {
    match t {
        Some(t) => if nullable {
            seq![("type"@, JsonV::Array(seq![JsonV::Str(t@), JsonV::Str("null"@)]))]
        } else {
            seq![("type"@, JsonV::Str(t@))]
        },
        None => if nullable { seq![("type"@, JsonV::Str("null"@))] } else { seq![] },
    }
}

/// A bound member, named for its exclusive form when exclusive.
pub open spec fn bound_member(name: Seq<char>, excl_name: Seq<char>, v: Option<Json>, excl: bool) -> Members {
    match v {
        Some(x) => if excl { seq![(excl_name, x@)] } else { seq![(name, x@)] },
        None => seq![],
    }
}

/// A flag member present only when the flag has the given value.
pub open spec fn flag_member(name: Seq<char>, present: bool, value: bool) -> Members {
    if present { seq![(name, JsonV::Bool(value))] } else { seq![] }
}

/// The members of a node's JSON schema, before nested nodes.
pub open spec fn flat_members(s: SchemaInfo) -> Members {
    flat_head(s) + flat_tail(s)
}

/// The type, text and value members of a node.
pub open spec fn flat_head(s: SchemaInfo) -> Members {
    type_member(s.schema_type, s.nullable)
        + str_member("format"@, s.format)
        + str_member("description"@, s.description)
        + opt_member("default"@, opt_json(s.default))
        + (if s.enum_values@.len() > 0 { seq![("enum"@, JsonV::Array(json::jv_items(s.enum_values@)))] } else { seq![] })
        + str_member("pattern"@, s.pattern)
}

/// The bound and flag members of a node.
pub open spec fn flat_tail(s: SchemaInfo) -> Members {
    tail_lengths(s) + tail_bounds(s) + tail_items(s)
}

/// The length members of a node.
pub open spec fn tail_lengths(s: SchemaInfo) -> Members {
    count_member("minLength"@, s.min_length) + count_member("maxLength"@, s.max_length)
}

/// The numeric bound members of a node.
pub open spec fn tail_bounds(s: SchemaInfo) -> Members {
    bound_member("minimum"@, "exclusiveMinimum"@, s.minimum, s.exclusive_minimum)
        + bound_member("maximum"@, "exclusiveMaximum"@, s.maximum, s.exclusive_maximum)
        + opt_member("multipleOf"@, opt_json(s.multiple_of))
}

/// The array and object flag members of a node.
pub open spec fn tail_items(s: SchemaInfo) -> Members {
    count_member("minItems"@, s.min_items)
        + count_member("maxItems"@, s.max_items)
        + flag_member("uniqueItems"@, s.unique_items, true)
        + flag_member("additionalProperties"@, !s.additional_properties, false)
}

/// The JSON schema of a node. A node that closes a cycle becomes a bare
/// description; nested properties and items are translated in turn.
pub open spec fn schema_json(s: SchemaInfo) -> JsonV
    decreases s, 2int,
{
    if s.is_recursive {
        JsonV::Object(seq![("description"@, JsonV::Str("cyclic schema omitted"@))])
    } else {
        let props: Members = if s.properties@.len() > 0 {
            proof {
                assert(decreases_to!(s => s.properties));
                assert(decreases_to!(s.properties => s.properties@));
            }
            seq![("properties"@, JsonV::Object(props_json(s.properties@)))]
        } else {
            seq![]
        };
        let items: Members = match s.items {
            Some(b) => {
                proof {
                    assert(decreases_to!(s => s.items));
                }
                seq![("items"@, schema_json(*b))]
            },
            None => seq![],
        };
        JsonV::Object(flat_members(s) + props + items)
    }
}

/// The schemas of a run of named properties.
pub open spec fn props_json(p: Seq<(String, SchemaInfo)>) -> Members
    decreases p, 1int,
{
    if p.len() == 0 {
        seq![]
    } else {
        proof {
            assert(decreases_to!(p => p.drop_last()));
            assert(decreases_to!(p => p[p.len() - 1]));
            assert(decreases_to!(p[p.len() - 1] => p[p.len() - 1].1));
        }
        props_json(p.drop_last()).push((p[p.len() - 1].0@, schema_json(p[p.len() - 1].1)))
    }
}

/// Appends one member.
fn push_member(out: &mut Vec<(String, Json)>, name: &str, v: Json)
    ensures
        json::jv_members(final(out)@) == json::jv_members(old(out)@).push((name@, v@)),
{
    let ghost before = out@;
    out.push((name.to_owned(), v));
    proof {
        json::lemma_jv_members(before);
        json::lemma_jv_members(out@);
        assert(json::jv_members(out@) =~= json::jv_members(before).push((name@, v@)));
    }
}

/// A JSON number for a count.
fn count_json(n: u64) -> (r: Json)
    ensures
        r@ == JsonV::Number(text::dec(n as nat)),
{
    Json::Number(text::dec_string(n as u128))
}

/// Appends a string member when the string is present.
fn push_str_member(out: &mut Vec<(String, Json)>, name: &str, v: &Option<String>)
    ensures
        json::jv_members(final(out)@) == json::jv_members(old(out)@) + str_member(name@, *v),
{
    let ghost before = json::jv_members(out@);
    match v {
        Some(x) => push_member(out, name, Json::Str(x.clone())),
        None => {}
    }
    proof {
        assert(json::jv_members(out@) =~= before + str_member(name@, *v));
    }
}

/// Appends a JSON member when the value is present.
fn push_json_member(out: &mut Vec<(String, Json)>, name: &str, v: &Option<Json>)
    ensures
        json::jv_members(final(out)@) == json::jv_members(old(out)@) + opt_member(name@, opt_json(*v)),
{
    let ghost before = json::jv_members(out@);
    match v {
        Some(x) => push_member(out, name, json::copy_json(x)),
        None => {}
    }
    proof {
        assert(json::jv_members(out@) =~= before + opt_member(name@, opt_json(*v)));
    }
}

/// Appends a count member when the count is present.
fn push_count_member(out: &mut Vec<(String, Json)>, name: &str, v: Option<u64>)
    ensures
        json::jv_members(final(out)@) == json::jv_members(old(out)@) + count_member(name@, v),
{
    let ghost before = json::jv_members(out@);
    match v {
        Some(n) => push_member(out, name, count_json(n)),
        None => {}
    }
    proof {
        assert(json::jv_members(out@) =~= before + count_member(name@, v));
    }
}

/// Appends a bound member when the bound is present.
fn push_bound_member(out: &mut Vec<(String, Json)>, name: &str, excl_name: &str, v: &Option<Json>, excl: bool)
    ensures
        json::jv_members(final(out)@) == json::jv_members(old(out)@) + bound_member(name@, excl_name@, *v, excl),
{
    let ghost before = json::jv_members(out@);
    match v {
        Some(x) => {
            if excl {
                push_member(out, excl_name, json::copy_json(x));
            } else {
                push_member(out, name, json::copy_json(x));
            }
        }
        None => {}
    }
    proof {
        assert(json::jv_members(out@) =~= before + bound_member(name@, excl_name@, *v, excl));
    }
}

/// Appends a boolean member when `present`.
fn push_flag_member(out: &mut Vec<(String, Json)>, name: &str, present: bool, value: bool)
    ensures
        json::jv_members(final(out)@) == json::jv_members(old(out)@) + flag_member(name@, present, value),
{
    let ghost before = json::jv_members(out@);
    if present {
        push_member(out, name, Json::Bool(value));
    }
    proof {
        assert(json::jv_members(out@) =~= before + flag_member(name@, present, value));
    }
}

/// The `type` member.
fn push_type_member(out: &mut Vec<(String, Json)>, t: &Option<String>, nullable: bool)
    ensures
        json::jv_members(final(out)@) == json::jv_members(old(out)@) + type_member(*t, nullable),
{
    let ghost before = json::jv_members(out@);
    proof {
        reveal_strlit("null");
    }
    match t {
        Some(t) => {
            if nullable {
                let mut u: Vec<Json> = Vec::new();
                u.push(Json::Str(t.clone()));
                u.push(Json::Str(String::from_str("null")));
                proof {
                    json::lemma_jv_items(u@);
                    assert(json::jv_items(u@) =~= seq![JsonV::Str(t@), JsonV::Str("null"@)]);
                }
                push_member(out, "type", Json::Array(u));
            } else {
                push_member(out, "type", Json::Str(t.clone()));
            }
        }
        None => {
            if nullable {
                push_member(out, "type", Json::Str(String::from_str("null")));
            }
        }
    }
    proof {
        assert(json::jv_members(out@) =~= before + type_member(*t, nullable));
    }
}

/// Copies of JSON values.
fn copy_items(v: &Vec<Json>) -> (r: Vec<Json>)
    ensures
        json::jv_items(r@) == json::jv_items(v@),
{
    let mut vals: Vec<Json> = Vec::new();
    let mut i: usize = 0;
    while i < v.len()
        invariant
            i <= v.len(),
            vals@.len() == i,
            forall|k: int| 0 <= k < i ==> #[trigger] vals@[k]@ == v@[k]@,
        decreases v.len() - i,
    {
        vals.push(json::copy_json(&v[i]));
        i = i + 1;
    }
    proof {
        json::lemma_jv_items(vals@);
        json::lemma_jv_items(v@);
        assert forall|k: int| 0 <= k < v@.len() implies json::jv_items(vals@)[k] == json::jv_items(v@)[k] by {
            assert(vals@[k]@ == v@[k]@);
        }
        assert(json::jv_items(vals@) =~= json::jv_items(v@));
    }
    vals
}

/// The type, text and value members of a node.
fn head_members(s: &SchemaInfo) -> (out: Vec<(String, Json)>)
    ensures
        json::jv_members(out@) == flat_head(*s),
{
    let mut out: Vec<(String, Json)> = Vec::new();
    proof {
        json::lemma_jv_members(out@);
        assert(json::jv_members(out@) =~= Seq::<(Seq<char>, JsonV)>::empty());
    }
    push_type_member(&mut out, &s.schema_type, s.nullable);
    push_str_member(&mut out, "format", &s.format);
    push_str_member(&mut out, "description", &s.description);
    push_json_member(&mut out, "default", &s.default);
    let ghost before = json::jv_members(out@);
    if s.enum_values.len() > 0 {
        let vals = copy_items(&s.enum_values);
        push_member(&mut out, "enum", Json::Array(vals));
    }
    proof {
        assert(json::jv_members(out@) =~= before + (if s.enum_values@.len() > 0 {
            seq![("enum"@, JsonV::Array(json::jv_items(s.enum_values@)))]
        } else {
            seq![]
        }));
    }
    push_str_member(&mut out, "pattern", &s.pattern);
    proof {
        assert(json::jv_members(out@) =~= flat_head(*s));
    }
    out
}

/// The length members of a node, appended to `out`.
fn push_lengths(out: &mut Vec<(String, Json)>, s: &SchemaInfo)
    ensures
        json::jv_members(final(out)@) == json::jv_members(old(out)@) + tail_lengths(*s),
{
    let ghost g = json::jv_members(out@);
    push_count_member(out, "minLength", s.min_length);
    let ghost g1 = json::jv_members(out@);
    push_count_member(out, "maxLength", s.max_length);
    proof {
        assert(json::jv_members(out@) =~= g + tail_lengths(*s));
    }
}

/// The numeric bound members of a node, appended to `out`.
fn push_bounds(out: &mut Vec<(String, Json)>, s: &SchemaInfo)
    ensures
        json::jv_members(final(out)@) == json::jv_members(old(out)@) + tail_bounds(*s),
{
    let ghost g = json::jv_members(out@);
    push_bound_member(out, "minimum", "exclusiveMinimum", &s.minimum, s.exclusive_minimum);
    push_bound_member(out, "maximum", "exclusiveMaximum", &s.maximum, s.exclusive_maximum);
    push_json_member(out, "multipleOf", &s.multiple_of);
    proof {
        assert(json::jv_members(out@) =~= g + tail_bounds(*s));
    }
}

/// The array and object flag members of a node, appended to `out`.
fn push_items_flags(out: &mut Vec<(String, Json)>, s: &SchemaInfo)
    ensures
        json::jv_members(final(out)@) == json::jv_members(old(out)@) + tail_items(*s),
{
    let ghost g = json::jv_members(out@);
    push_count_member(out, "minItems", s.min_items);
    push_count_member(out, "maxItems", s.max_items);
    push_flag_member(out, "uniqueItems", s.unique_items, true);
    push_flag_member(out, "additionalProperties", !s.additional_properties, false);
    proof {
        assert(json::jv_members(out@) =~= g + tail_items(*s));
    }
}

/// The bound and flag members of a node, appended to `out`.
fn push_tail_members(out: &mut Vec<(String, Json)>, s: &SchemaInfo)
    ensures
        json::jv_members(final(out)@) == json::jv_members(old(out)@) + flat_tail(*s),
{
    let ghost g = json::jv_members(out@);
    push_lengths(out, s);
    push_bounds(out, s);
    push_items_flags(out, s);
    proof {
        assert(json::jv_members(out@) =~= g + flat_tail(*s));
    }
}

/// Convert a single schema node into JSON Schema, recursing into
/// properties and items.
pub fn resolved_schema_to_json(s: &SchemaInfo) -> (r: Json)
    ensures
        r@ == schema_json(*s),
    decreases s,
{
    proof {
        reveal_strlit("description");
        reveal_strlit("cyclic schema omitted");
    }
    let mut out: Vec<(String, Json)> = Vec::new();
    if s.is_recursive {
        push_member(&mut out, "description", Json::Str(String::from_str("cyclic schema omitted")));
        proof {
            assert(json::jv_members(out@) =~= seq![("description"@, JsonV::Str("cyclic schema omitted"@))]);
        }
        return Json::Object(out);
    }
    let mut out = head_members(s);
    push_tail_members(&mut out, s);
    let ghost mut acc: Members = flat_members(*s);
    proof {
        assert(json::jv_members(out@) =~= acc);
    }
    if s.properties.len() > 0 {
        let mut props: Vec<(String, Json)> = Vec::new();
        let mut i: usize = 0;
        proof {
            json::lemma_jv_members(props@);
            assert(json::jv_members(props@) =~= props_json(s.properties@.subrange(0, 0)));
        }
        while i < s.properties.len()
            invariant
                i <= s.properties.len(),
                json::jv_members(props@) == props_json(s.properties@.subrange(0, i as int)),
            decreases s.properties.len() - i,
        {
            proof {
                assert(decreases_to!(*s => s.properties));
                assert(decreases_to!(s.properties => s.properties@));
                assert(decreases_to!(s.properties@ => s.properties@[i as int]));
                assert(decreases_to!(s.properties@[i as int] => s.properties@[i as int].1));
            }
            let sub = resolved_schema_to_json(&s.properties[i].1);
            push_member(&mut props, s.properties[i].0.as_str(), sub);
            proof {
                let t = s.properties@.subrange(0, i + 1);
                assert(t.drop_last() =~= s.properties@.subrange(0, i as int));
                assert(t[t.len() - 1] == s.properties@[i as int]);
            }
            i = i + 1;
        }
        proof {
            assert(s.properties@.subrange(0, i as int) =~= s.properties@);
        }
        push_member(&mut out, "properties", Json::Object(props));
    }
    proof {
        let props: Members = if s.properties@.len() > 0 {
            seq![("properties"@, JsonV::Object(props_json(s.properties@)))]
        } else {
            seq![]
        };
        acc = acc + props;
        assert(json::jv_members(out@) =~= acc);
    }
    match &s.items {
        Some(b) => {
            proof {
                assert(decreases_to!(*s => s.items));
            }
            let sub = resolved_schema_to_json(b);
            push_member(&mut out, "items", sub);
        }
        None => {}
    }
    proof {
        acc = acc + items_member(s.items);
        assert(json::jv_members(out@) =~= acc);
    }
    Json::Object(out)
}


/// The `(in: location)` note appended to a parameter's description.
pub open spec fn location_note(loc: ParameterLocation) -> Seq<char> {
    "(in: "@ + ir::location_text(loc) + ")"@
}

/// A parameter's schema with its description noting the location: the
/// schema's own description, else the parameter's, followed by the note.
pub open spec fn annotated(prop: JsonV, loc: ParameterLocation, param_desc: Option<Seq<char>>) -> JsonV {
    match prop {
        JsonV::Object(m) => {
            let desc = match json::member(m, "description"@) {
                Some(JsonV::Str(e)) => e + " "@ + location_note(loc),
                _ => match param_desc {
                    Some(d) => d + " "@ + location_note(loc),
                    None => location_note(loc),
                },
            };
            JsonV::Object(tools::obj_put(m, "description"@, JsonV::Str(desc)))
        },
        _ => prop,
    }
}

/// Index of the first entry of `content` for media type `media`.
pub open spec fn media_index(content: Seq<(String, Option<SchemaInfo>)>, media: Seq<char>) -> Option<int>
    decreases content.len(),
{
    if content.len() == 0 {
        None
    } else if content[0].0@ == media {
        Some(0)
    } else {
        match media_index(content.drop_first(), media) {
            Some(i) => Some(i + 1),
            None => None,
        }
    }
}

/// The first schema among `content`.
pub open spec fn first_schema(content: Seq<(String, Option<SchemaInfo>)>) -> Option<SchemaInfo>
    decreases content.len(),
{
    if content.len() == 0 {
        None
    } else if content[0].1 is Some {
        content[0].1
    } else {
        first_schema(content.drop_first())
    }
}

/// The body schema: the `application/json` one when it has a schema, else
/// the first media type's schema.
pub open spec fn body_schema(content: Seq<(String, Option<SchemaInfo>)>) -> Option<SchemaInfo> {
    match media_index(content, "application/json"@) {
        Some(i) if content[i].1 is Some => content[i].1,
        _ => first_schema(content),
    }
}

/// The `body` property: the body schema with a description filled in when
/// it has none.
pub open spec fn body_prop(schema: SchemaInfo, desc: Option<Seq<char>>) -> JsonV {
    match schema_json(schema) {
        JsonV::Object(m) => if json::member(m, "description"@) is Some {
            JsonV::Object(m)
        } else {
            JsonV::Object(m.push(("description"@, JsonV::Str(match desc {
                Some(d) => d,
                None => "Request body"@,
            }))))
        },
        x => x,
    }
}

/// The properties and required names contributed by a run of parameters.
pub open spec fn params_props(params: Seq<ir::ParamInfo>) -> (Members, Seq<JsonV>)
    decreases params.len(),
{
    if params.len() == 0 {
        (seq![], seq![])
    } else {
        let (props, req) = params_props(params.drop_last());
        let p = params.last();
        let prop = annotated(schema_json(p.schema), p.location, tools::opt_view(p.description));
        (tools::obj_put(props, p.name@, prop), if p.required { req.push(JsonV::Str(p.name@)) } else { req })
    }
}

/// The properties and required names of an operation's input.
pub open spec fn input_props(op: OperationInfo) -> (Members, Seq<JsonV>) {
    let (props, req) = params_props(op.parameters@);
    match op.request_body {
        Some(rb) => match body_schema(rb.content@) {
            Some(bs) => (
                tools::obj_put(props, "body"@, body_prop(bs, tools::opt_view(rb.description))),
                if rb.required { req.push(JsonV::Str("body"@)) } else { req },
            ),
            None => (props, req),
        },
        None => (props, req),
    }
}

/// The MCP `inputSchema` of an operation: an object with one property per
/// parameter (and `body` when the operation has a body schema), the
/// required names, and no additional properties.
pub open spec fn input_schema_of(op: OperationInfo) -> JsonV {
    let (props, req) = input_props(op);
    JsonV::Object(
        seq![("type"@, JsonV::Str("object"@)), ("properties"@, JsonV::Object(props))]
            + (if req.len() > 0 { seq![("required"@, JsonV::Array(req))] } else { seq![] })
            + seq![("additionalProperties"@, JsonV::Bool(false))],
    )
}

/// The member `key` of an object's members, if present.
fn members_get<'a>(m: &'a Vec<(String, Json)>, key: &str) -> (r: Option<&'a Json>)
    ensures
        match r {
            Some(v) => json::member(json::jv_members(m@), key@) == Some(v@),
            None => json::member(json::jv_members(m@), key@) is None,
        },
{
    let ghost mv = json::jv_members(m@);
    proof {
        json::lemma_jv_members(m@);
        assert(mv.subrange(0, mv.len() as int) =~= mv);
    }
    let mut i: usize = 0;
    while i < m.len()
        invariant
            i <= m.len(),
            mv == json::jv_members(m@),
            mv.len() == m@.len(),
            forall|k: int| 0 <= k < m@.len() ==> #[trigger] mv[k] == (m@[k].0@, m@[k].1@),
            json::member(mv, key@) == json::member(mv.subrange(i as int, mv.len() as int), key@),
        decreases m.len() - i,
    {
        proof {
            let rest = mv.subrange(i as int, mv.len() as int);
            assert(rest.drop_first() =~= mv.subrange(i + 1, mv.len() as int));
            assert(rest[0] == mv[i as int]);
        }
        if crate::json::str_eq(m[i].0.as_str(), key) {
            return Some(&m[i].1);
        }
        i = i + 1;
    }
    None
}

/// Notes a parameter's location in its schema's description.
fn annotate_location(prop: Json, loc: ParameterLocation, param_desc: &Option<String>) -> (r: Json)
    ensures
        r@ == annotated(prop@, loc, tools::opt_view(*param_desc)),
{
    proof {
        reveal_strlit("description");
    }
    match prop {
        Json::Object(mut m) => {
            let mut suffix = String::from_str("(in: ");
            suffix.append(ir::location_name(loc));
            suffix.append(")");
            let desc = match members_get(&m, "description") {
                Some(Json::Str(e)) => {
                    let mut d = e.clone();
                    d.append(" ");
                    d.append(suffix.as_str());
                    d
                }
                _ => match param_desc {
                    Some(d0) => {
                        let mut d = d0.clone();
                        d.append(" ");
                        d.append(suffix.as_str());
                        d
                    }
                    None => suffix,
                },
            };
            crate::mcp::tools::members_put(&mut m, String::from_str("description"), Json::Str(desc));
            Json::Object(m)
        }
        other => other,
    }
}

/// Index of the first entry for media type `media`.
fn media_index_exec(c: &Vec<(String, Option<SchemaInfo>)>, media: &str) -> (r: Option<usize>)
    ensures
        match r {
            Some(i) => media_index(c@, media@) == Some(i as int) && i < c@.len(),
            None => media_index(c@, media@) is None,
        },
{
    let mut i: usize = 0;
    proof {
        assert(c@.subrange(0, c@.len() as int) =~= c@);
    }
    while i < c.len()
        invariant
            i <= c.len(),
            media_index(c@, media@) == match media_index(c@.subrange(i as int, c@.len() as int), media@) {
                Some(k) => Some(k + i),
                None => None,
            },
        decreases c.len() - i,
    {
        proof {
            let rest = c@.subrange(i as int, c@.len() as int);
            assert(rest.drop_first() =~= c@.subrange(i + 1, c@.len() as int));
            assert(rest[0] == c@[i as int]);
        }
        if crate::json::str_eq(c[i].0.as_str(), media) {
            return Some(i);
        }
        i = i + 1;
    }
    None
}

/// Picks the body schema of a request body.
fn pick_body_schema(rb: &RequestBodyInfo) -> (r: Option<&SchemaInfo>)
    ensures
        match r {
            Some(x) => body_schema(rb.content@) == Some(*x),
            None => body_schema(rb.content@) is None,
        },
{
    let c = &rb.content;
    proof {
        reveal_strlit("application/json");
    }
    match media_index_exec(c, "application/json") {
        Some(i) => match &c[i].1 {
            Some(sch) => return Some(sch),
            None => {}
        },
        None => {}
    }
    let mut j: usize = 0;
    proof {
        assert(c@.subrange(0, c@.len() as int) =~= c@);
    }
    while j < c.len()
        invariant
            j <= c.len(),
            *c == rb.content,
            body_schema(c@) == first_schema(c@),
            first_schema(c@) == first_schema(c@.subrange(j as int, c@.len() as int)),
        decreases c.len() - j,
    {
        proof {
            let rest = c@.subrange(j as int, c@.len() as int);
            assert(rest.drop_first() =~= c@.subrange(j + 1, c@.len() as int));
            assert(rest[0] == c@[j as int]);
        }
        match &c[j].1 {
            Some(sch) => return Some(sch),
            None => {}
        }
        j = j + 1;
    }
    None
}

/// The `body` property of a request body with schema `bs`.
fn body_property(bs: &SchemaInfo, rb: &RequestBodyInfo) -> (r: Json)
    ensures
        r@ == body_prop(*bs, tools::opt_view(rb.description)),
{
    proof {
        reveal_strlit("description");
        reveal_strlit("Request body");
    }
    let prop = resolved_schema_to_json(bs);
    match prop {
        Json::Object(mut m) => {
            if members_get(&m, "description").is_none() {
                let d = match &rb.description {
                    Some(d) => d.clone(),
                    None => String::from_str("Request body"),
                };
                push_member(&mut m, "description", Json::Str(d));
            }
            Json::Object(m)
        }
        other => other,
    }
}

/// Build the top-level `inputSchema` object for an MCP tool wrapping `op`.
pub fn operation_input_schema(op: &OperationInfo) -> (r: Json)
    ensures
        r@ == input_schema_of(*op),
{
    proof {
        reveal_strlit("body");
        reveal_strlit("description");
    }
    let mut properties: Vec<(String, Json)> = Vec::new();
    let mut required: Vec<Json> = Vec::new();
    let mut i: usize = 0;
    proof {
        json::lemma_jv_members(properties@);
        json::lemma_jv_items(required@);
        assert(json::jv_members(properties@) =~= Seq::<(Seq<char>, JsonV)>::empty());
        assert(json::jv_items(required@) =~= Seq::<JsonV>::empty());
        assert(op.parameters@.subrange(0, 0) =~= Seq::<ir::ParamInfo>::empty());
    }
    while i < op.parameters.len()
        invariant
            i <= op.parameters.len(),
            (json::jv_members(properties@), json::jv_items(required@)) == params_props(op.parameters@.subrange(0, i as int)),
        decreases op.parameters.len() - i,
    {
        let param = &op.parameters[i];
        let prop = resolved_schema_to_json(&param.schema);
        let prop = annotate_location(prop, param.location, &param.description);
        crate::mcp::tools::members_put(&mut properties, param.name.clone(), prop);
        if param.required {
            let ghost before = required@;
            required.push(Json::Str(param.name.clone()));
            proof {
                json::lemma_jv_items(before);
                json::lemma_jv_items(required@);
                assert(json::jv_items(required@) =~= json::jv_items(before).push(JsonV::Str(param.name@)));
            }
        }
        proof {
            let t = op.parameters@.subrange(0, i + 1);
            assert(t.drop_last() =~= op.parameters@.subrange(0, i as int));
            assert(t.last() == op.parameters@[i as int]);
        }
        i = i + 1;
    }
    proof {
        assert(op.parameters@.subrange(0, i as int) =~= op.parameters@);
    }
    let ghost pp = (json::jv_members(properties@), json::jv_items(required@));
    match &op.request_body {
        Some(rb) => match pick_body_schema(rb) {
            Some(bs) => {
                let prop = body_property(bs, rb);
                crate::mcp::tools::members_put(&mut properties, String::from_str("body"), prop);
                if rb.required {
                    let ghost before = required@;
                    required.push(Json::Str(String::from_str("body")));
                    proof {
                        json::lemma_jv_items(before);
                        json::lemma_jv_items(required@);
                        assert(json::jv_items(required@) =~= json::jv_items(before).push(JsonV::Str("body"@)));
                    }
                }
            }
            None => {}
        },
        None => {}
    }
    proof {
        assert((json::jv_members(properties@), json::jv_items(required@)) == input_props(*op));
    }
    let mut schema: Vec<(String, Json)> = Vec::new();
    push_member(&mut schema, "type", Json::Str(String::from_str("object")));
    let has_required = required.len() > 0;
    proof {
        json::lemma_jv_items(required@);
    }
    push_member(&mut schema, "properties", Json::Object(properties));
    if has_required {
        push_member(&mut schema, "required", Json::Array(required));
    }
    push_member(&mut schema, "additionalProperties", Json::Bool(false));
    proof {
        reveal_strlit("type");
        reveal_strlit("object");
        reveal_strlit("properties");
        reveal_strlit("required");
        reveal_strlit("additionalProperties");
        let (props, req) = input_props(*op);
        assert(json::jv_members(schema@) =~= seq![("type"@, JsonV::Str("object"@)), ("properties"@, JsonV::Object(props))]
            + (if req.len() > 0 { seq![("required"@, JsonV::Array(req))] } else { seq![] })
            + seq![("additionalProperties"@, JsonV::Bool(false))]);
    }
    Json::Object(schema)
}
} // verus!
