//! Output modes and the row/column layout of table and CSV output.

use vstd::prelude::*;
use crate::json::{self, Json, JsonV};
use crate::text;

verus! {

broadcast use crate::json::lemma_jv_items, crate::json::lemma_jv_members;

/// Output mode for formatting responses.
#[derive(PartialEq, Eq, Structural, Clone, Copy)]
pub enum OutputMode {
    /// Pretty-printed JSON (default on a terminal).
    Pretty,
    /// Raw JSON / bytes (default when piped).
    Raw,
    /// YAML output.
    Yaml,
    /// Table output.
    Table,
    /// CSV output.
    Csv,
}

/// The mode a `--spall-output` value names (case-insensitive).
pub open spec fn mode_named(s: Seq<char>) -> Option<OutputMode> {
    let l = text::lower(s);
    if l == "json"@ || l == "pretty"@ {
        Some(OutputMode::Pretty)
    } else if l == "raw"@ {
        Some(OutputMode::Raw)
    } else if l == "yaml"@ {
        Some(OutputMode::Yaml)
    } else if l == "table"@ {
        Some(OutputMode::Table)
    } else if l == "csv"@ {
        Some(OutputMode::Csv)
    } else {
        None
    }
}

/// The name of each mode.
pub open spec fn mode_text(m: OutputMode) -> Seq<char> {
    match m {
        OutputMode::Pretty => "pretty"@,
        OutputMode::Raw => "raw"@,
        OutputMode::Yaml => "yaml"@,
        OutputMode::Table => "table"@,
        OutputMode::Csv => "csv"@,
    }
}

impl OutputMode {
    /// Parse from a string override.
    pub fn from_str(s: &str) -> (r: Option<OutputMode>)
        ensures
            r == mode_named(s@),
    {
        let l = text::string_of(&text::lower_vec(&text::chars_of(s)));
        let l = l.as_str();
        if crate::json::str_eq(l, "json") || crate::json::str_eq(l, "pretty") {
            Some(OutputMode::Pretty)
        } else if crate::json::str_eq(l, "raw") {
            Some(OutputMode::Raw)
        } else if crate::json::str_eq(l, "yaml") {
            Some(OutputMode::Yaml)
        } else if crate::json::str_eq(l, "table") {
            Some(OutputMode::Table)
        } else if crate::json::str_eq(l, "csv") {
            Some(OutputMode::Csv)
        } else {
            None
        }
    }

    /// The default mode: pretty on a terminal, raw when piped.
    pub fn default_for(stdout_is_terminal: bool) -> (r: OutputMode)
        ensures
            r == (if stdout_is_terminal { OutputMode::Pretty } else { OutputMode::Raw }),
    {
        if stdout_is_terminal { OutputMode::Pretty } else { OutputMode::Raw }
    }
}

/// The name of an output mode.
pub fn mode_name(mode: OutputMode) -> (r: &'static str)
    ensures
        r@ == mode_text(mode),
{
    match mode {
        OutputMode::Pretty => "pretty",
        OutputMode::Raw => "raw",
        OutputMode::Yaml => "yaml",
        OutputMode::Table => "table",
        OutputMode::Csv => "csv",
    }
}

/// The output mode: raw when verbose, else the `--spall-output` mode (the
/// default when it names none), else the default.
pub open spec fn output_mode_of(verbose: bool, output: Option<Seq<char>>, is_terminal: bool) -> OutputMode {
    if verbose {
        OutputMode::Raw
    } else {
        match output {
            Some(o) => match mode_named(o) {
                Some(m) => m,
                None => if is_terminal { OutputMode::Pretty } else { OutputMode::Raw },
            },
            None => if is_terminal { OutputMode::Pretty } else { OutputMode::Raw },
        }
    }
}

/// Pick the output mode from the verbose flag, the `--spall-output` value
/// and whether stdout is a terminal.
pub fn determine_output_mode(verbose: bool, output: Option<&str>, stdout_is_terminal: bool) -> (r: OutputMode)
    ensures
        r == output_mode_of(verbose, match output { Some(o) => Some(o@), None => None }, stdout_is_terminal),
{
    if verbose {
        OutputMode::Raw
    } else {
        match output {
            Some(o) => match OutputMode::from_str(o) {
                Some(m) => m,
                None => OutputMode::default_for(stdout_is_terminal),
            },
            None => OutputMode::default_for(stdout_is_terminal),
        }
    }
}

/// The distinct member names of `rows` in order of first appearance.
pub open spec fn row_keys(rows: Seq<JsonV>) -> Seq<Seq<char>>
    decreases rows.len(),
{
    if rows.len() == 0 {
        seq![]
    } else {
        add_keys(row_keys(rows.drop_last()), rows.last())
    }
}

/// `keys` extended by the member names of `row` not yet in it.
pub open spec fn add_keys(keys: Seq<Seq<char>>, row: JsonV) -> Seq<Seq<char>> {
    match row {
        JsonV::Object(m) => add_names(keys, m),
        _ => keys,
    }
}

/// `keys` extended by the names of `m` not yet in it, in order.
pub open spec fn add_names(keys: Seq<Seq<char>>, m: Seq<(Seq<char>, JsonV)>) -> Seq<Seq<char>>
    decreases m.len(),
{
    if m.len() == 0 {
        keys
    } else {
        let k = add_names(keys, m.drop_last());
        if k.contains(m.last().0) { k } else { k.push(m.last().0) }
    }
}

/// What a table cell shows for a member: a string as it is, any other
/// value as compact JSON, nothing for a missing member.
pub open spec fn cell_text(v: Option<JsonV>) -> Seq<char> {
    match v {
        Some(JsonV::Str(s)) => s,
        Some(x) => json::json_text(x),
        None => seq![],
    }
}

/// Whether every row is an object.
pub open spec fn all_objects(rows: Seq<JsonV>) -> bool {
    forall|i: int| 0 <= i < rows.len() ==> #[trigger] rows[i] is Object
}

/// The cells of one row under `keys`.
pub open spec fn row_cells(keys: Seq<Seq<char>>, row: JsonV) -> Seq<Seq<char>> {
    keys.map_values(|k: Seq<char>| cell_text(row.get(k)))
}

/// Whether the headers `h` and cells `c` are the table layout of `value`:
/// an array of objects, headed by their member names.
pub open spec fn is_table_of(value: JsonV, h: Seq<Seq<char>>, c: Seq<Seq<Seq<char>>>) -> bool {
    match value {
        JsonV::Array(rows) => all_objects(rows) && h == row_keys(rows) && c.len() == rows.len()
            && forall|i: int| 0 <= i < rows.len() ==> #[trigger] c[i] == row_cells(h, rows[i]),
        _ => false,
    }
}

/// Whether `value` has a table layout.
pub open spec fn tabular(value: JsonV) -> bool {
    match value {
        JsonV::Array(rows) => all_objects(rows),
        _ => false,
    }
}

/// The views of a vector of strings.
pub open spec fn sv(v: Seq<String>) -> Seq<Seq<char>> {
    v.map_values(|s: String| s@)
}

/// Whether `keys` holds `k`.
fn keys_has(keys: &Vec<String>, k: &str) -> (b: bool)
    ensures
        b == sv(keys@).contains(k@),
{
    let mut i: usize = 0;
    while i < keys.len()
        invariant
            i <= keys.len(),
            forall|j: int| 0 <= j < i ==> keys@[j]@ != k@,
        decreases keys.len() - i,
    {
        if crate::json::str_eq(keys[i].as_str(), k) {
            proof {
                assert(sv(keys@)[i as int] == k@);
            }
            return true;
        }
        i = i + 1;
    }
    proof {
        if sv(keys@).contains(k@) {
            let j = choose|j: int| 0 <= j < sv(keys@).len() && sv(keys@)[j] == k@;
            assert(keys@[j]@ == k@);
        }
    }
    false
}

/// The member names of `rows` in order of first appearance (see `row_keys`).
fn headers_of(rows: &Vec<Json>) -> (h: Vec<String>)
    ensures
        sv(h@) == row_keys(json::jv_items(rows@)),
{
    let ghost rv = json::jv_items(rows@);
    proof {
        json::lemma_jv_items(rows@);
    }
    let mut headers: Vec<String> = Vec::new();
    let mut i: usize = 0;
    while i < rows.len()
        invariant
            i <= rows.len(),
            rv == json::jv_items(rows@),
            rv.len() == rows@.len(),
            forall|k: int| 0 <= k < rows@.len() ==> #[trigger] rv[k] == rows@[k]@,
            sv(headers@) == row_keys(rv.subrange(0, i as int)),
        decreases rows.len() - i,
    {
        let ghost before = sv(headers@);
        match &rows[i] {
            Json::Object(m) => {
                let ghost mv = json::jv_members(m@);
                proof {
                    json::lemma_jv_members(m@);
                }
                let mut j: usize = 0;
                while j < m.len()
                    invariant
                        j <= m.len(),
                        mv == json::jv_members(m@),
                        mv.len() == m@.len(),
                        forall|k: int| 0 <= k < m@.len() ==> #[trigger] mv[k] == (m@[k].0@, m@[k].1@),
                        sv(headers@) == add_names(before, mv.subrange(0, j as int)),
                    decreases m.len() - j,
                {
                    let name = m[j].0.as_str();
                    proof {
                        let t = mv.subrange(0, j + 1);
                        assert(t.drop_last() =~= mv.subrange(0, j as int));
                        assert(t.last() == mv[j as int]);
                    }
                    if !keys_has(&headers, name) {
                        let ghost hb = headers@;
                        headers.push(name.to_owned());
                        proof {
                            assert(sv(headers@) =~= sv(hb).push(name@));
                        }
                    }
                    j = j + 1;
                }
                proof {
                    assert(mv.subrange(0, j as int) =~= mv);
                    assert(rows@[i as int]@ == JsonV::Object(mv));
                }
            }
            _ => {}
        }
        proof {
            let t = rv.subrange(0, i + 1);
            assert(t.drop_last() =~= rv.subrange(0, i as int));
            assert(t.last() == rv[i as int]);
        }
        i = i + 1;
    }
    proof {
        assert(rv.subrange(0, i as int) =~= rv);
    }
    headers
}

/// The cells of the first `n` rows under `headers`.
fn cells_of(headers: &Vec<String>, rows: &Vec<Json>, n: usize) -> (c: Vec<Vec<String>>)
    requires
        n <= rows.len(),
    ensures
        c@.len() == n,
        forall|k: int| 0 <= k < n ==> #[trigger] sv(c@[k]@) == row_cells(sv(headers@), json::jv_items(rows@)[k]),
{
    let ghost rv = json::jv_items(rows@);
    proof {
        json::lemma_jv_items(rows@);
    }
    let mut cells: Vec<Vec<String>> = Vec::new();
    let mut i: usize = 0;
    while i < n
        invariant
            i <= n <= rows.len(),
            rv == json::jv_items(rows@),
            rv.len() == rows@.len(),
            forall|k: int| 0 <= k < rows@.len() ==> #[trigger] rv[k] == rows@[k]@,
            cells@.len() == i,
            forall|k: int| 0 <= k < i ==> #[trigger] sv(cells@[k]@) == row_cells(sv(headers@), rv[k]),
        decreases n - i,
    {
        let mut row: Vec<String> = Vec::new();
        let mut j: usize = 0;
        while j < headers.len()
            invariant
                j <= headers.len(),
                i < rows.len(),
                rv.len() == rows@.len(),
                rv[i as int] == rows@[i as int]@,
                sv(row@) == row_cells(sv(headers@), rv[i as int]).subrange(0, j as int),
            decreases headers.len() - j,
        {
            let cell = match rows[i].get(headers[j].as_str()) {
                Some(Json::Str(s)) => s.clone(),
                Some(v) => json::to_json_text(v),
                None => String::new(),
            };
            let ghost rb = row@;
            row.push(cell);
            proof {
                assert(sv(row@) =~= sv(rb).push(cell_text(rv[i as int].get(headers@[j as int]@))));
                assert(row_cells(sv(headers@), rv[i as int]).subrange(0, j + 1) =~=
                    row_cells(sv(headers@), rv[i as int]).subrange(0, j as int).push(cell_text(rv[i as int].get(sv(headers@)[j as int]))));
            }
            j = j + 1;
        }
        proof {
            assert(row_cells(sv(headers@), rv[i as int]).subrange(0, j as int) =~= row_cells(sv(headers@), rv[i as int]));
        }
        cells.push(row);
        i = i + 1;
    }
    cells
}

/// The number of leading rows that are objects.
pub open spec fn object_run(rows: Seq<JsonV>) -> nat
    decreases rows.len(),
{
    if rows.len() == 0 || !(rows[0] is Object) {
        0
    } else {
        1 + object_run(rows.drop_first())
    }
}

/// `object_run` is the first position whose row is not an object.
proof fn lemma_object_run(rows: Seq<JsonV>, k: int)
    requires
        0 <= k <= rows.len(),
        forall|j: int| 0 <= j < k ==> #[trigger] rows[j] is Object,
        k < rows.len() ==> !(rows[k] is Object),
    ensures
        object_run(rows) == k,
    decreases k,
{
    if k > 0 {
        let t = rows.drop_first();
        assert forall|j: int| 0 <= j < k - 1 implies #[trigger] t[j] is Object by {
            assert(t[j] == rows[j + 1]);
        }
        if k - 1 < t.len() {
            assert(t[k - 1] == rows[k]);
        }
        lemma_object_run(t, k - 1);
    }
}

/// The number of leading rows that are objects (see `object_run`).
fn object_run_exec(rows: &Vec<Json>) -> (k: usize)
    ensures
        k as int == object_run(json::jv_items(rows@)),
        k <= rows.len(),
{
    let ghost rv = json::jv_items(rows@);
    proof {
        json::lemma_jv_items(rows@);
    }
    let mut i: usize = 0;
    while i < rows.len()
        invariant
            i <= rows.len(),
            rv == json::jv_items(rows@),
            rv.len() == rows@.len(),
            forall|k: int| 0 <= k < rows@.len() ==> #[trigger] rv[k] == rows@[k]@,
            forall|k: int| 0 <= k < i ==> #[trigger] rv[k] is Object,
        decreases rows.len() - i,
    {
        match &rows[i] {
            Json::Object(_) => {}
            _ => {
                proof {
                    lemma_object_run(rv, i as int);
                }
                return i;
            }
        }
        i = i + 1;
    }
    proof {
        lemma_object_run(rv, i as int);
    }
    i
}

/// The rows and columns of table / CSV output: `None` unless `value` is an
/// array whose rows are all objects; the headers are the member names in
/// order of first appearance.
pub fn table_layout(value: &Json) -> (r: Option<(Vec<String>, Vec<Vec<String>>)>)
    ensures
        match r {
            Some((h, c)) => is_table_of(value@, sv(h@), c@.map_values(|row: Vec<String>| sv(row@))),
            None => !tabular(value@),
        },
{
    let rows = match value {
        Json::Array(rows) => rows,
        _ => return None,
    };
    let ghost rv = json::jv_items(rows@);
    let k = object_run_exec(rows);
    if k < rows.len() {
        proof {
            assert(rv[k as int] == rows@[k as int]@);
            lemma_object_run_stops(rv);
        }
        return None;
    }
    proof {
        lemma_object_run_all(rv);
    }
    let headers = headers_of(rows);
    let cells = cells_of(&headers, rows, rows.len());
    proof {
        let c = cells@.map_values(|row: Vec<String>| sv(row@));
        assert forall|k: int| 0 <= k < rv.len() implies #[trigger] c[k] == row_cells(sv(headers@), rv[k]) by {
            assert(c[k] == sv(cells@[k]@));
        }
        assert(value@ == JsonV::Array(rv));
    }
    Some((headers, cells))
}

/// The rows before `object_run` are objects and the row there is not.
proof fn lemma_object_run_stops(rows: Seq<JsonV>)
    ensures
        object_run(rows) <= rows.len(),
        forall|j: int| 0 <= j < object_run(rows) ==> #[trigger] rows[j] is Object,
        object_run(rows) < rows.len() ==> !(rows[object_run(rows) as int] is Object),
    decreases rows.len(),
{
    if rows.len() > 0 && rows[0] is Object {
        let t = rows.drop_first();
        lemma_object_run_stops(t);
        assert forall|j: int| 0 <= j < object_run(rows) implies #[trigger] rows[j] is Object by {
            if j > 0 {
                assert(rows[j] == t[j - 1]);
            }
        }
        if object_run(rows) < rows.len() {
            assert(rows[object_run(rows) as int] == t[object_run(t) as int]);
        }
    }
}

/// Every row is an object when `object_run` covers them all.
proof fn lemma_object_run_all(rows: Seq<JsonV>)
    requires
        object_run(rows) >= rows.len(),
    ensures
        all_objects(rows),
{
    lemma_object_run_stops(rows);
}

/// What `tabled` draws for a table with these headers and rows, in its
/// `modern` style.
pub uninterp spec fn table_text(headers: Seq<Seq<char>>, rows: Seq<Seq<Seq<char>>>) -> Seq<char>;

/// `tabled::builder::Builder` with the headers, then each row, built and
/// drawn in `Style::modern()`: the drawing, named.
#[verifier::external_body]
fn render_table(headers: &Vec<String>, rows: &Vec<Vec<String>>) -> (r: String)
    ensures
        r@ == table_text(sv(headers@), rows@.map_values(|row: Vec<String>| sv(row@))),
{
    let mut builder = tabled::builder::Builder::default();
    builder.push_record(headers);
    rows.iter().for_each(|row| builder.push_record(row));
    let mut table = builder.build();
    table.with(tabled::settings::Style::modern());
    table.to_string()
}

/// What a `csv::Writer` writes for the header record and then each row.
pub uninterp spec fn csv_text(headers: Seq<Seq<char>>, rows: Seq<Seq<Seq<char>>>) -> Seq<char>;

/// `csv::Writer` over a byte buffer: the header record, then each row
/// (a record it refuses is left out), as text; named.
#[verifier::external_body]
fn render_csv(headers: &Vec<String>, rows: &Vec<Vec<String>>) -> (r: String)
    ensures
        r@ == csv_text(sv(headers@), rows@.map_values(|row: Vec<String>| sv(row@))),
{
    let mut w = csv::Writer::from_writer(Vec::new());
    let _ = w.write_record(headers);
    rows.iter().for_each(|row| {
        let _ = w.write_record(row);
    });
    String::from_utf8(w.into_inner().unwrap_or_default()).unwrap_or_default()
}

/// What `syntect` makes of a text highlighted as JSON in the
/// `base16-ocean.dark` theme with 24-bit terminal escapes, line by line,
/// lines joined by newlines (the text itself when the syntax or theme is
/// missing, a line as it is when highlighting it fails).
pub uninterp spec fn highlighted(text: Seq<char>) -> Seq<char>;

/// `syntect`'s JSON highlighting of a text (see `highlighted`), named.
#[verifier::external_body]
pub(crate) fn highlight_json(text: &str) -> (r: String)
    ensures
        r@ == highlighted(text@),
{
    let ss = syntect::parsing::SyntaxSet::load_defaults_newlines();
    let ts = syntect::highlighting::ThemeSet::load_defaults();
    match (ss.find_syntax_by_extension("json"), ts.themes.get("base16-ocean.dark")) {
        (Some(syntax), Some(theme)) => {
            let mut h = syntect::easy::HighlightLines::new(syntax, theme);
            text.lines().map(|l| h.highlight_line(l, &ss).map(|r| syntect::util::as_24_bit_terminal_escaped(&r[..], false))
                .unwrap_or_else(|_| l.to_string())).collect::<Vec<String>>().join("\n")
        },
        _ => text.to_string(),
    }
}

/// A response rendered for the terminal: the text to write and the warning
/// to show first, if any.
pub struct Rendered {
    pub text: String,
    pub warning: Option<String>,
}

/// The cells of `rows` under `h`.
pub open spec fn table_cells(h: Seq<Seq<char>>, rows: Seq<JsonV>) -> Seq<Seq<Seq<char>>> {
    rows.map_values(|r: JsonV| row_cells(h, r))
}

/// How a parsed response is rendered in each mode:
/// - pretty: `serde_json`'s pretty text, highlighted, and a newline;
/// - raw: the compact JSON text;
/// - YAML: not available here, so a warning and the pretty text;
/// - table: an array of objects drawn as a table under the member names and
///   a newline; `(empty result set)` for an empty array; otherwise a
///   warning and the pretty text;
/// - CSV: an array of objects as CSV under the member names, nothing for an
///   empty array; a row that is not an object stops the CSV there (the rows
///   before it were written) and the compact JSON follows, after a
///   warning; a value that is not an array is written compact, after a
///   warning.
pub open spec fn render_of(mode: OutputMode, v: JsonV) -> (Seq<char>, Option<Seq<char>>) {
    let pretty = crate::json::pretty_text(v) + "\n"@;
    match mode {
        OutputMode::Pretty => (highlighted(crate::json::pretty_text(v)) + "\n"@, None),
        OutputMode::Raw => (json::json_text(v), None),
        OutputMode::Yaml => (pretty, Some(yaml_warning())),
        OutputMode::Table => match v {
            JsonV::Array(rows) => if rows.len() == 0 {
                ("(empty result set)\n"@, None)
            } else if all_objects(rows) {
                (table_text(row_keys(rows), table_cells(row_keys(rows), rows)) + "\n"@, None)
            } else {
                (pretty, Some("Warning: table mode requires an array of objects. Row is not an object; falling back to pretty JSON."@))
            },
            _ => (pretty, Some("Warning: table mode requires a JSON array. Falling back to pretty JSON."@)),
        },
        OutputMode::Csv => match v {
            JsonV::Array(rows) => if rows.len() == 0 {
                (seq![], None)
            } else if all_objects(rows) {
                (csv_text(row_keys(rows), table_cells(row_keys(rows), rows)), None)
            } else {
                (csv_text(row_keys(rows), table_cells(row_keys(rows), rows.take(object_run(rows) as int))) + json::json_text(v),
                    Some("Warning: csv mode requires an array of objects. Row is not an object; falling back to raw."@))
            },
            _ => (json::json_text(v), Some("Warning: csv mode requires a JSON array. Falling back to raw."@)),
        },
    }
}

/// The warning for YAML output, which this build does not produce.
pub open spec fn yaml_warning() -> Seq<char> {
    "Warning: YAML serialization failed (YAML output is not available). Falling back to pretty JSON."@
}

/// Text followed by another.
fn joined(a: String, b: &str) -> (r: String)
    ensures
        r@ == a@ + b@,
{
    let mut r = a;
    r.append(b);
    r
}

/// Render a parsed response in `mode` (see `render_of`).
pub fn render_value(mode: OutputMode, value: &Json) -> (r: Rendered)
    ensures
        (r.text@, crate::auth::opt_view(r.warning)) == render_of(mode, value@),
{
    match mode {
        OutputMode::Pretty => Rendered { text: joined(highlight_json(json::pretty_json(value).as_str()), "\n"), warning: None },
        OutputMode::Raw => Rendered { text: json::to_json_text(value), warning: None },
        OutputMode::Yaml => Rendered {
            text: joined(json::pretty_json(value), "\n"),
            warning: Some("Warning: YAML serialization failed (YAML output is not available). Falling back to pretty JSON.".to_owned()),
        },
        OutputMode::Table => {
            let rows = match value {
                Json::Array(rows) => rows,
                _ => return Rendered {
                    text: joined(json::pretty_json(value), "\n"),
                    warning: Some("Warning: table mode requires a JSON array. Falling back to pretty JSON.".to_owned()),
                },
            };
            let ghost rv = json::jv_items(rows@);
            if rows.len() == 0 {
                return Rendered { text: "(empty result set)\n".to_owned(), warning: None };
            }
            let k = object_run_exec(rows);
            if k < rows.len() {
                proof {
                    lemma_object_run_stops(rv);
                    assert(!all_objects(rv));
                }
                return Rendered {
                    text: joined(json::pretty_json(value), "\n"),
                    warning: Some("Warning: table mode requires an array of objects. Row is not an object; falling back to pretty JSON.".to_owned()),
                };
            }
            proof {
                lemma_object_run_all(rv);
            }
            let headers = headers_of(rows);
            let cells = cells_of(&headers, rows, rows.len());
            proof {
                assert(cells@.map_values(|row: Vec<String>| sv(row@)) =~= table_cells(sv(headers@), rv));
            }
            Rendered { text: joined(render_table(&headers, &cells), "\n"), warning: None }
        },
        OutputMode::Csv => {
            let rows = match value {
                Json::Array(rows) => rows,
                _ => return Rendered {
                    text: json::to_json_text(value),
                    warning: Some("Warning: csv mode requires a JSON array. Falling back to raw.".to_owned()),
                },
            };
            let ghost rv = json::jv_items(rows@);
            if rows.len() == 0 {
                proof {
                    assert(rv.len() == 0);
                }
                return Rendered { text: String::new(), warning: None };
            }
            let k = object_run_exec(rows);
            let headers = headers_of(rows);
            let cells = cells_of(&headers, rows, k);
            proof {
                lemma_object_run_stops(rv);
                assert(cells@.map_values(|row: Vec<String>| sv(row@)) =~= table_cells(sv(headers@), rv.take(k as int)));
            }
            if k < rows.len() {
                proof {
                    assert(!all_objects(rv));
                }
                Rendered {
                    text: joined(render_csv(&headers, &cells), json::to_json_text(value).as_str()),
                    warning: Some("Warning: csv mode requires an array of objects. Row is not an object; falling back to raw.".to_owned()),
                }
            } else {
                proof {
                    lemma_object_run_all(rv);
                    assert(rv.take(k as int) =~= rv);
                }
                Rendered { text: render_csv(&headers, &cells), warning: None }
            }
        },
    }
}

/// How a response body is emitted.
#[derive(PartialEq, Eq, Structural, Clone, Copy)]
pub enum EmitPlan {
    /// Written to the `--spall-save` file as received.
    Save,
    /// Parsed and shown as YAML, a table or CSV.
    Structured,
    /// A structured mode asked for a body that is not JSON: a warning, then
    /// the body as received.
    FallbackRaw,
    /// Pretty, highlighted JSON.
    PrettyJson,
    /// The body as received.
    Raw,
}

/// How a response body is emitted: a save file wins; the structured modes
/// need a JSON body (else they fall back to the raw body with a warning);
/// pretty mode shows JSON pretty and anything else as received.
pub open spec fn emit_plan_of(mode: OutputMode, saving: bool, body_is_json: bool) -> EmitPlan {
    if saving {
        EmitPlan::Save
    } else {
        match mode {
            OutputMode::Yaml | OutputMode::Table | OutputMode::Csv => if body_is_json {
                EmitPlan::Structured
            } else {
                EmitPlan::FallbackRaw
            },
            OutputMode::Pretty => if body_is_json {
                EmitPlan::PrettyJson
            } else {
                EmitPlan::Raw
            },
            OutputMode::Raw => EmitPlan::Raw,
        }
    }
}

/// How a response body is emitted (see `emit_plan_of`).
pub fn emit_plan(mode: OutputMode, saving: bool, body_is_json: bool) -> (r: EmitPlan)
    ensures
        r == emit_plan_of(mode, saving, body_is_json),
{
    if saving {
        return EmitPlan::Save;
    }
    match mode {
        OutputMode::Yaml | OutputMode::Table | OutputMode::Csv => {
            if body_is_json { EmitPlan::Structured } else { EmitPlan::FallbackRaw }
        },
        OutputMode::Pretty => {
            if body_is_json { EmitPlan::PrettyJson } else { EmitPlan::Raw }
        },
        OutputMode::Raw => EmitPlan::Raw,
    }
}

/// The warning shown when a structured mode gets a body that is not JSON.
pub fn fallback_warning(mode: OutputMode) -> (r: String)
    ensures
        r@ == "Warning: expected JSON for "@ + mode_text(mode) + " output, got non-JSON body. Falling back to raw."@,
{
    let mut m = "Warning: expected JSON for ".to_owned();
    m.append(mode_name(mode));
    m.append(" output, got non-JSON body. Falling back to raw.");
    m
}

/// How a response body reaches the terminal.
pub enum Emission {
    /// The body as received, after this warning, if any.
    Body { warning: Option<String> },
    /// The body parsed and rendered.
    Rendered(Rendered),
}

/// How a response body reaches the terminal, as plain values.
pub enum EmissionV {
    Body { warning: Option<Seq<char>> },
    Rendered(Seq<char>, Option<Seq<char>>),
}

/// The view of an emission.
pub open spec fn emission_view(e: Emission) -> EmissionV {
    match e {
        Emission::Body { warning } => EmissionV::Body { warning: crate::auth::opt_view(warning) },
        Emission::Rendered(r) => EmissionV::Rendered(r.text@, crate::auth::opt_view(r.warning)),
    }
}

/// How a response body is shown in `mode` (not saved): as `emit_plan_of`
/// decides on whether the body is JSON; a structured or pretty body is
/// rendered from its parse (`render_of`); a structured mode with a body
/// that is not JSON warns and shows the body as received.
pub open spec fn emission_of(mode: OutputMode, body: Seq<u8>) -> EmissionV {
    let parsed = json::json_parsed_bytes(body);
    match emit_plan_of(mode, false, parsed is Ok) {
        EmitPlan::Structured | EmitPlan::PrettyJson => {
            let (t, w) = render_of(mode, parsed->Ok_0);
            EmissionV::Rendered(t, w)
        },
        EmitPlan::FallbackRaw => EmissionV::Body {
            warning: Some("Warning: expected JSON for "@ + mode_text(mode) + " output, got non-JSON body. Falling back to raw."@),
        },
        _ => EmissionV::Body { warning: None },
    }
}

/// Decide how a response body is shown (see `emission_of`).
pub fn emit_body(mode: OutputMode, body: &[u8]) -> (r: Emission)
    ensures
        emission_view(r) == emission_of(mode, body@),
{
    let parsed = json::parse_json_bytes(body);
    match emit_plan(mode, false, parsed.is_ok()) {
        EmitPlan::Structured | EmitPlan::PrettyJson => {
            let v = match parsed {
                Ok(v) => v,
                Err(_) => Json::Null,
            };
            Emission::Rendered(render_value(mode, &v))
        },
        EmitPlan::FallbackRaw => Emission::Body { warning: Some(fallback_warning(mode)) },
        _ => Emission::Body { warning: None },
    }
}


/// Lowercase text lowers to itself.
proof fn lemma_lower_fixed(s: Seq<char>)
    requires
        forall|i: int| 0 <= i < s.len() ==> 'a' <= #[trigger] s[i] <= 'z',
    ensures
        text::lower(s) == s,
{
    assert(text::lower(s) =~= s);
}

/// Every mode is read back from its own name: `--spall-output` given a
/// mode's name selects that mode, and distinct modes have distinct names.
pub proof fn law_mode_name_round_trip(m: OutputMode)
    ensures
        mode_named(mode_text(m)) == Some(m),
{
    reveal_strlit("pretty");
    reveal_strlit("raw");
    reveal_strlit("yaml");
    reveal_strlit("table");
    reveal_strlit("csv");
    reveal_strlit("json");
    let t = mode_text(m);
    lemma_lower_fixed(t);
    match m {
        OutputMode::Pretty => {},
        OutputMode::Raw => {
            assert(t != "json"@ && t != "pretty"@) by { assert(t.len() == 3); }
        },
        OutputMode::Yaml => {
            assert(t != "json"@ && t != "pretty"@ && t != "raw"@) by { assert(t[0] == 'y' && t.len() == 4); assert("json"@[0] == 'j'); }
        },
        OutputMode::Table => {
            assert(t != "json"@ && t != "pretty"@ && t != "raw"@ && t != "yaml"@) by { assert(t.len() == 5); }
        },
        OutputMode::Csv => {
            assert(t != "json"@ && t != "pretty"@ && t != "raw"@ && t != "yaml"@ && t != "table"@) by {
                assert(t.len() == 3 && t[0] == 'c');
                assert("raw"@[0] == 'r');
            }
        },
    }
}

} // verus!
