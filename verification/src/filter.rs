//! Response filtering with JMESPath (`--filter`).

use vstd::prelude::*;
use crate::chain::{self, JmesFailure};
use crate::json::{self, Json, JsonV};

verus! {

/// What `--filter expr` makes of a response: the result as JSON text (a
/// string result quoted as JSON), or the message to warn with: the compile
/// error as it is (for a refused number literal, the library's own),
/// a failed search prefixed `JMESPath search error: `.
pub open spec fn filtered(expr: Seq<char>, doc: JsonV) -> Result<Seq<char>, Seq<char>> {
    if !chain::jmes_numbers_fit(expr) {
        Err(chain::number_range_msg())
    } else {
        match chain::jmespath_outcome(expr, json::json_text(doc)) {
            Ok((true, s)) => Ok(json::quote(s)),
            Ok((false, t)) => Ok(t),
            Err((true, m)) => Err(m),
            Err((false, m)) => Err("JMESPath search error: "@ + m),
        }
    }
}

/// Evaluate a JMESPath expression against a response (see `filtered`); the
/// result is JSON text.
pub fn filter_response(expr: &str, value: &Json) -> (r: Result<String, String>)
    ensures
        match (r, filtered(expr@, value@)) {
            (Ok(a), Ok(b)) => a@ == b,
            (Err(a), Err(b)) => a@ == b,
            _ => false,
        },
{
    if !chain::jmespath_numbers_fit(expr) {
        proof {
            reveal_strlit("number literal out of range");
        }
        return Err("number literal out of range".to_owned());
    }
    let doc = json::to_json_text(value);
    match chain::jmespath_search(expr, doc.as_str()) {
        Ok((true, s)) => Ok(json::json_quote(s.as_str())),
        Ok((false, t)) => Ok(t),
        Err(JmesFailure::Compile(m)) => Err(m),
        Err(JmesFailure::Search(m)) => {
            let mut msg = "JMESPath search error: ".to_owned();
            msg.append(m.as_str());
            Err(msg)
        },
    }
}

} // verus!
