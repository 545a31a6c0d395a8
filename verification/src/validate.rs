//! Preflight checks of an operation's arguments: which parameters are
//! reported and how, where a body to check comes from, and how the
//! diagnostics are shown. The schema checks themselves are the resolver's;
//! their verdicts come in as values.

use vstd::prelude::*;
use crate::ir::ParamInfo;
use crate::text;

verus! {

/// A diagnostic: where in the request, and what is wrong.
pub struct ValidationError {
    /// `/param/<name>` or `/body...`.
    pub pointer: String,
    pub message: String,
}

/// The views of diagnostics.
pub open spec fn error_views(e: Seq<ValidationError>) -> Seq<(Seq<char>, Seq<char>)> {
    e.map_values(|x: ValidationError| (x.pointer@, x.message@))
}

/// The diagnostics of the parameters, in declaration order: a value that
/// the schema check refused (its verdict) is reported under the
/// parameter's pointer; a required parameter without a value is reported
/// as missing.
pub open spec fn param_errors(params: Seq<ParamInfo>, values: Seq<Option<String>>, verdicts: Seq<Option<String>>) -> Seq<(Seq<char>, Seq<char>)>
    decreases params.len(),
{
    if params.len() == 0 {
        seq![]
    } else {
        let n = params.len() - 1;
        let rest = param_errors(params.drop_last(), values.take(n), verdicts.take(n));
        let p = params.last();
        match values[n] {
            Some(_) => match verdicts[n] {
                Some(m) => rest.push(("/param/"@ + p.name@, m@)),
                None => rest,
            },
            None => if p.required {
                rest.push(("/param/"@ + p.name@, "required parameter '"@ + p.name@ + "' is missing"@))
            } else {
                rest
            },
        }
    }
}

/// The diagnostics of the parameters (see `param_errors`): `values[i]` is
/// what was given for `params[i]`, `verdicts[i]` the schema check's message
/// when it refused that value.
pub fn preflight_param_errors(
    params: &Vec<ParamInfo>,
    values: &Vec<Option<String>>,
    verdicts: &Vec<Option<String>>,
) -> (r: Vec<ValidationError>)
    requires
        values@.len() == params@.len(),
        verdicts@.len() == params@.len(),
    ensures
        error_views(r@) == param_errors(params@, values@, verdicts@),
{
    let mut out: Vec<ValidationError> = Vec::new();
    let mut i: usize = 0;
    while i < params.len()
        invariant
            i <= params.len(),
            values@.len() == params@.len(),
            verdicts@.len() == params@.len(),
            error_views(out@) == param_errors(params@.take(i as int), values@.take(i as int), verdicts@.take(i as int)),
        decreases params.len() - i,
    {
        proof {
            let ps = params@.take(i + 1);
            assert(ps.drop_last() =~= params@.take(i as int));
            assert(values@.take(i + 1).take(i as int) =~= values@.take(i as int));
            assert(verdicts@.take(i + 1).take(i as int) =~= verdicts@.take(i as int));
            assert(ps.last() == params@[i as int]);
            assert(values@.take(i + 1)[i as int] == values@[i as int]);
            assert(verdicts@.take(i + 1)[i as int] == verdicts@[i as int]);
        }
        let name = params[i].name.as_str();
        let ghost before = out@;
        match &values[i] {
            Some(_) => {
                if let Some(m) = &verdicts[i] {
                    let mut ptr = "/param/".to_owned();
                    ptr.append(name);
                    out.push(ValidationError { pointer: ptr, message: m.clone() });
                    proof {
                        assert(error_views(out@) =~= error_views(before).push(("/param/"@ + name@, m@)));
                    }
                }
            },
            None => {
                if params[i].required {
                    let mut ptr = "/param/".to_owned();
                    ptr.append(name);
                    let mut msg = "required parameter '".to_owned();
                    msg.append(name);
                    msg.append("' is missing");
                    out.push(ValidationError { pointer: ptr, message: msg });
                    proof {
                        assert(error_views(out@) =~= error_views(before).push(
                            ("/param/"@ + name@, "required parameter '"@ + name@ + "' is missing"@)));
                    }
                }
            },
        }
        i = i + 1;
    }
    proof {
        assert(params@.take(params@.len() as int) =~= params@);
        assert(values@.take(values@.len() as int) =~= values@);
        assert(verdicts@.take(verdicts@.len() as int) =~= verdicts@);
    }
    out
}

/// The diagnostics as shown: one line each, `  <pointer>: <message>`.
pub open spec fn errors_text(e: Seq<(Seq<char>, Seq<char>)>) -> Seq<char> {
    text::join(e.map_values(|x: (Seq<char>, Seq<char>)| "  "@ + x.0 + ": "@ + x.1), "\n"@)
}

/// The diagnostics as shown (see `errors_text`).
pub fn format_errors(errors: &Vec<ValidationError>) -> (r: String)
    ensures
        r@ == errors_text(error_views(errors@)),
{
    let mut lines: Vec<String> = Vec::new();
    let mut i: usize = 0;
    while i < errors.len()
        invariant
            i <= errors.len(),
            text::views(lines@) == error_views(errors@).take(i as int).map_values(
                |x: (Seq<char>, Seq<char>)| "  "@ + x.0 + ": "@ + x.1),
        decreases errors.len() - i,
    {
        let mut line = "  ".to_owned();
        line.append(errors[i].pointer.as_str());
        line.append(": ");
        line.append(errors[i].message.as_str());
        let ghost before = lines@;
        lines.push(line);
        proof {
            assert(text::views(lines@) =~= text::views(before).push(line@));
            assert(error_views(errors@).take(i + 1).map_values(|x: (Seq<char>, Seq<char>)| "  "@ + x.0 + ": "@ + x.1)
                =~= error_views(errors@).take(i as int).map_values(|x: (Seq<char>, Seq<char>)| "  "@ + x.0 + ": "@ + x.1).push(line@));
        }
        i = i + 1;
    }
    proof {
        assert(error_views(errors@).take(errors@.len() as int) =~= error_views(errors@));
    }
    text::join_exec(&lines, "\n")
}

/// Where the body to check before sending comes from, read from the last
/// `--data` value.
pub enum BodySource {
    /// `-`: standard input, which is not read before sending.
    Stdin,
    /// `@path`: that file.
    File(String),
    /// The value itself.
    Inline(String),
}

/// Where the body to check comes from (see `BodySource`).
pub fn preflight_body_source(last: &str) -> (r: BodySource)
    ensures
        last@ == "-"@ ==> r is Stdin,
        last@ != "-"@ && last@.len() > 0 && last@[0] == '@' ==> (r matches BodySource::File(p) && p@ == last@.subrange(1, last@.len() as int)),
        last@ != "-"@ && !(last@.len() > 0 && last@[0] == '@') ==> (r matches BodySource::Inline(t) && t@ == last@),
{
    if crate::json::str_eq(last, "-") {
        return BodySource::Stdin;
    }
    let v = text::chars_of(last);
    if v.len() > 0 && v[0] == '@' {
        BodySource::File(text::string_of_range(&v, 1, v.len()))
    } else {
        BodySource::Inline(last.to_owned())
    }
}

/// The media type of a `Content-Type` value: the part before any `;`,
/// trimmed.
pub open spec fn media_type_of(content_type: Seq<char>) -> Seq<char> {
    text::trim(text::split(content_type, ';')[0])
}

/// The media type of a `Content-Type` value (see `media_type_of`).
pub fn media_type(content_type: &str) -> (r: String)
    ensures
        r@ == media_type_of(content_type@),
{
    let v = text::chars_of(content_type);
    let pieces = text::split_exec(&v, ';');
    proof {
        assert(text::split(v@, ';').len() >= 1) by {
            reveal_with_fuel(text::split, 1);
        }
    }
    text::trim_vec(&pieces[0])
}

} // verus!
