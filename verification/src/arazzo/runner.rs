//! The Arazzo runner's rules: document validation, workflow and operation
//! lookup, parameter routing, the step loop's control decisions and the
//! shape of the run's JSON outcome.

use vstd::prelude::*;
use crate::text;
use crate::json::{self, Json, JsonV};
use crate::arazzo::actions::{self, StepFlow, FlowV};

verus! {

/// Default cap on step executions per workflow.
pub const DEFAULT_MAX_STEPS: usize = 10000;

/// How serious a diagnostic is.
#[derive(PartialEq, Eq, Structural, Clone, Copy)]
pub enum Severity {
    Warning,
    Error,
}

/// A diagnostic about a construct the runner does not support.
pub struct ValidationDiagnostic {
    pub severity: Severity,
    pub message: String,
}

/// A step, as far as validation and lookup read it.
pub struct StepInfo {
    pub step_id: String,
    pub operation_id: Option<String>,
    pub operation_path: Option<String>,
    pub workflow_id: Option<String>,
    /// The `type` of each success criterion (`None` means `simple`).
    pub criteria_kinds: Vec<Option<String>>,
}

/// A workflow: its id and steps.
pub struct WorkflowInfo {
    pub workflow_id: String,
    pub steps: Vec<StepInfo>,
}

/// An Arazzo document: its declared version and workflows.
pub struct DocInfo {
    pub arazzo: String,
    pub workflows: Vec<WorkflowInfo>,
}

/// The view of a diagnostic.
pub open spec fn diag_view(d: ValidationDiagnostic) -> (Severity, Seq<char>) {
    (d.severity, d.message@)
}

/// The diagnostics of one step.
pub open spec fn step_diags(s: StepInfo) -> Seq<(Severity, Seq<char>)> {
    let id = s.step_id@;
    (if s.operation_path is Some {
        seq![(Severity::Warning, "step '"@ + id + "' uses operationPath (deferred to v2; see issue #5)"@)]
    } else { seq![] })
    + (if s.workflow_id is Some {
        seq![(Severity::Warning, "step '"@ + id + "' uses workflowId (nested workflows are v2)"@)]
    } else { seq![] })
    + (if s.operation_id is None && s.operation_path is None && s.workflow_id is None {
        seq![(Severity::Error, "step '"@ + id + "' has no operationId, operationPath, or workflowId"@)]
    } else { seq![] })
    + kind_diags(id, s.criteria_kinds@)
}

/// The diagnostics of a step's criteria of types other than `simple`.
pub open spec fn kind_diags(id: Seq<char>, kinds: Seq<Option<String>>) -> Seq<(Severity, Seq<char>)>
    decreases kinds.len(),
{
    if kinds.len() == 0 {
        seq![]
    } else {
        let k = match kinds.last() { Some(k) => k@, None => "simple"@ };
        kind_diags(id, kinds.drop_last()) + if k != "simple"@ {
            seq![(Severity::Warning, "step '"@ + id + "' criterion type '"@ + k + "' is v2 (only 'simple' runs in v1)"@)]
        } else {
            seq![]
        }
    }
}

/// The diagnostics of a run of steps.
pub open spec fn steps_diags(steps: Seq<StepInfo>) -> Seq<(Severity, Seq<char>)>
    decreases steps.len(),
{
    if steps.len() == 0 { seq![] } else { steps_diags(steps.drop_last()) + step_diags(steps.last()) }
}

/// The diagnostics of a run of workflows.
pub open spec fn workflows_diags(wfs: Seq<WorkflowInfo>) -> Seq<(Severity, Seq<char>)>
    decreases wfs.len(),
{
    if wfs.len() == 0 { seq![] } else { workflows_diags(wfs.drop_last()) + steps_diags(wfs.last().steps@) }
}

/// The diagnostics of a document: an untested version, no workflows, and
/// each step's unsupported constructs.
pub open spec fn doc_diags(doc: DocInfo) -> Seq<(Severity, Seq<char>)> {
    (if doc.arazzo@ != "1.0.1"@ && doc.arazzo@ != "1.0.0"@ {
        seq![(Severity::Warning, "document declares arazzo version '"@ + doc.arazzo@ + "'; v1 was tested against 1.0.1"@)]
    } else { seq![] })
    + (if doc.workflows@.len() == 0 { seq![(Severity::Error, "document declares no workflows"@)] } else { seq![] })
    + workflows_diags(doc.workflows@)
}

/// Appends a diagnostic.
fn push_diag(out: &mut Vec<ValidationDiagnostic>, severity: Severity, message: String)
    ensures
        final(out)@.map_values(|d: ValidationDiagnostic| diag_view(d))
            == old(out)@.map_values(|d: ValidationDiagnostic| diag_view(d)).push((severity, message@)),
{
    let ghost m = message@;
    out.push(ValidationDiagnostic { severity, message });
    proof {
        assert(final(out)@.map_values(|d: ValidationDiagnostic| diag_view(d))
            =~= old(out)@.map_values(|d: ValidationDiagnostic| diag_view(d)).push((severity, m)));
    }
}

/// `step '<id>'<rest>`.
fn step_msg(id: &String, rest: &str) -> (r: String)
    ensures
        r@ == "step '"@ + id@ + rest@,
{
    let mut m = String::from_str("step '");
    m.append(id.as_str());
    m.append(rest);
    m
}

/// Appends the diagnostics of one step.
fn push_step_diags(out: &mut Vec<ValidationDiagnostic>, step: &StepInfo)
    ensures
        final(out)@.map_values(|d: ValidationDiagnostic| diag_view(d))
            == old(out)@.map_values(|d: ValidationDiagnostic| diag_view(d)) + step_diags(*step),
{
    let ghost start = out@.map_values(|d: ValidationDiagnostic| diag_view(d));
    let id = &step.step_id;
    if step.operation_path.is_some() {
        push_diag(out, Severity::Warning, step_msg(id, "' uses operationPath (deferred to v2; see issue #5)"));
    }
    if step.workflow_id.is_some() {
        push_diag(out, Severity::Warning, step_msg(id, "' uses workflowId (nested workflows are v2)"));
    }
    if step.operation_id.is_none() && step.operation_path.is_none() && step.workflow_id.is_none() {
        push_diag(out, Severity::Error, step_msg(id, "' has no operationId, operationPath, or workflowId"));
    }
    let ghost mid = out@.map_values(|d: ValidationDiagnostic| diag_view(d));
    proof {
        assert(mid =~= start
            + (if step.operation_path is Some {
                seq![(Severity::Warning, "step '"@ + id@ + "' uses operationPath (deferred to v2; see issue #5)"@)]
            } else { seq![] })
            + (if step.workflow_id is Some {
                seq![(Severity::Warning, "step '"@ + id@ + "' uses workflowId (nested workflows are v2)"@)]
            } else { seq![] })
            + (if step.operation_id is None && step.operation_path is None && step.workflow_id is None {
                seq![(Severity::Error, "step '"@ + id@ + "' has no operationId, operationPath, or workflowId"@)]
            } else { seq![] }));
        reveal_strlit("simple");
    }
    let mut i: usize = 0;
    while i < step.criteria_kinds.len()
        invariant
            i <= step.criteria_kinds.len(),
            out@.map_values(|d: ValidationDiagnostic| diag_view(d)) == mid + kind_diags(step.step_id@, step.criteria_kinds@.subrange(0, i as int)),
        decreases step.criteria_kinds.len() - i,
    {
        let kind: &str = match &step.criteria_kinds[i] {
            Some(k) => k.as_str(),
            None => "simple",
        };
        let ghost before = out@.map_values(|d: ValidationDiagnostic| diag_view(d));
        if !crate::json::str_eq(kind, "simple") {
            let mut m = step_msg(&step.step_id, "' criterion type '");
            m.append(kind);
            m.append("' is v2 (only 'simple' runs in v1)");
            push_diag(out, Severity::Warning, m);
        }
        proof {
            let t = step.criteria_kinds@.subrange(0, i + 1);
            assert(t.drop_last() =~= step.criteria_kinds@.subrange(0, i as int));
            assert(t.last() == step.criteria_kinds@[i as int]);
            let extra = if kind@ != "simple"@ {
                seq![(Severity::Warning, "step '"@ + step.step_id@ + "' criterion type '"@ + kind@ + "' is v2 (only 'simple' runs in v1)"@)]
            } else {
                Seq::<(Severity, Seq<char>)>::empty()
            };
            assert(out@.map_values(|d: ValidationDiagnostic| diag_view(d)) =~= before + extra);
        }
        i = i + 1;
    }
    proof {
        assert(step.criteria_kinds@.subrange(0, i as int) =~= step.criteria_kinds@);
    }
}

/// Static-time validation: diagnostics for constructs the runner does not
/// support; empty when everything is supported.
pub fn validate_doc(doc: &DocInfo) -> (r: Vec<ValidationDiagnostic>)
    ensures
        r@.map_values(|d: ValidationDiagnostic| diag_view(d)) == doc_diags(*doc),
{
    let mut out: Vec<ValidationDiagnostic> = Vec::new();
    proof {
        assert(out@.map_values(|d: ValidationDiagnostic| diag_view(d)) =~= Seq::<(Severity, Seq<char>)>::empty());
    }
    if !crate::json::str_eq(doc.arazzo.as_str(), "1.0.1") && !crate::json::str_eq(doc.arazzo.as_str(), "1.0.0") {
        let mut m = String::from_str("document declares arazzo version '");
        m.append(doc.arazzo.as_str());
        m.append("'; v1 was tested against 1.0.1");
        push_diag(&mut out, Severity::Warning, m);
    }
    if doc.workflows.len() == 0 {
        push_diag(&mut out, Severity::Error, String::from_str("document declares no workflows"));
    }
    let ghost head = out@.map_values(|d: ValidationDiagnostic| diag_view(d));
    let mut w: usize = 0;
    while w < doc.workflows.len()
        invariant
            w <= doc.workflows.len(),
            out@.map_values(|d: ValidationDiagnostic| diag_view(d)) == head + workflows_diags(doc.workflows@.subrange(0, w as int)),
        decreases doc.workflows.len() - w,
    {
        let wf = &doc.workflows[w];
        let ghost before_wf = out@.map_values(|d: ValidationDiagnostic| diag_view(d));
        let mut s: usize = 0;
        while s < wf.steps.len()
            invariant
                s <= wf.steps.len(),
                out@.map_values(|d: ValidationDiagnostic| diag_view(d)) == before_wf + steps_diags(wf.steps@.subrange(0, s as int)),
            decreases wf.steps.len() - s,
        {
            push_step_diags(&mut out, &wf.steps[s]);
            proof {
                let t = wf.steps@.subrange(0, s + 1);
                assert(t.drop_last() =~= wf.steps@.subrange(0, s as int));
                assert(t.last() == wf.steps@[s as int]);
            }
            s = s + 1;
        }
        proof {
            assert(wf.steps@.subrange(0, s as int) =~= wf.steps@);
            let t = doc.workflows@.subrange(0, w + 1);
            assert(t.drop_last() =~= doc.workflows@.subrange(0, w as int));
            assert(t.last() == doc.workflows@[w as int]);
        }
        w = w + 1;
    }
    proof {
        assert(doc.workflows@.subrange(0, w as int) =~= doc.workflows@);
    }
    out
}

/// The workflow ids joined with `", "`.
pub open spec fn ids_joined(wfs: Seq<WorkflowInfo>) -> Seq<char>
    decreases wfs.len(),
{
    if wfs.len() == 0 {
        seq![]
    } else if wfs.len() == 1 {
        wfs[0].workflow_id@
    } else {
        ids_joined(wfs.drop_last()) + ", "@ + wfs.last().workflow_id@
    }
}

/// Index of the first workflow called `id`.
pub open spec fn workflow_index(wfs: Seq<WorkflowInfo>, id: Seq<char>) -> Option<int>
    decreases wfs.len(),
{
    if wfs.len() == 0 {
        None
    } else if wfs[0].workflow_id@ == id {
        Some(0)
    } else {
        match workflow_index(wfs.drop_first(), id) {
            Some(i) => Some(i + 1),
            None => None,
        }
    }
}

/// Which workflow runs: the one requested (first of that id), or the
/// only one; else the message of the workflow-not-found error.
pub open spec fn pick_workflow_of(wfs: Seq<WorkflowInfo>, requested: Option<Seq<char>>) -> Result<int, Seq<char>> {
    match requested {
        Some(id) => match workflow_index(wfs, id) {
            Some(i) => Ok(i),
            None => Err("'"@ + id + "' (available: "@ + ids_joined(wfs) + ")"@),
        },
        None => if wfs.len() == 1 {
            Ok(0)
        } else {
            Err("(none specified; multiple workflows in doc \\u{2014} pass --workflow <id>; available: "@ + ids_joined(wfs) + ")"@)
        },
    }
}

/// The workflow ids joined with `", "`.
fn join_ids(wfs: &Vec<WorkflowInfo>) -> (r: String)
    ensures
        r@ == ids_joined(wfs@),
{
    let mut out = String::new();
    let mut i: usize = 0;
    while i < wfs.len()
        invariant
            i <= wfs.len(),
            out@ == ids_joined(wfs@.subrange(0, i as int)),
        decreases wfs.len() - i,
    {
        if i > 0 {
            out.append(", ");
        }
        out.append(wfs[i].workflow_id.as_str());
        proof {
            let t = wfs@.subrange(0, i + 1);
            assert(t.drop_last() =~= wfs@.subrange(0, i as int));
            assert(t.last() == wfs@[i as int]);
            if i == 0 {
                assert(t.len() == 1);
            }
        }
        i = i + 1;
    }
    proof {
        assert(wfs@.subrange(0, i as int) =~= wfs@);
    }
    out
}

/// Pick the workflow to run.
pub fn pick_workflow(doc: &DocInfo, requested: Option<&str>) -> (r: Result<usize, String>)
    ensures
        match (r, pick_workflow_of(doc.workflows@, match requested { Some(q) => Some(q@), None => None })) {
            (Ok(i), Ok(j)) => i as int == j,
            (Err(m), Err(n)) => m@ == n,
            _ => false,
        },
{
    let wfs = &doc.workflows;
    match requested {
        Some(id) => {
            let mut i: usize = 0;
            proof {
                assert(wfs@.subrange(0, wfs@.len() as int) =~= wfs@);
            }
            while i < wfs.len()
                invariant
                    i <= wfs.len(),
                    wfs@ == doc.workflows@,
                    requested == Some(id),
                    workflow_index(wfs@, id@) == match workflow_index(wfs@.subrange(i as int, wfs@.len() as int), id@) {
                        Some(k) => Some(k + i),
                        None => None,
                    },
                decreases wfs.len() - i,
            {
                proof {
                    let rest = wfs@.subrange(i as int, wfs@.len() as int);
                    assert(rest.drop_first() =~= wfs@.subrange(i + 1, wfs@.len() as int));
                    assert(rest[0] == wfs@[i as int]);
                }
                if crate::json::str_eq(wfs[i].workflow_id.as_str(), id) {
                    return Ok(i);
                }
                i = i + 1;
            }
            let mut m = String::from_str("'");
            m.append(id);
            m.append("' (available: ");
            m.append(join_ids(wfs).as_str());
            m.append(")");
            Err(m)
        }
        None => {
            if wfs.len() == 1 {
                return Ok(0);
            }
            let mut m = String::from_str("(none specified; multiple workflows in doc \\u{2014} pass --workflow <id>; available: ");
            m.append(join_ids(wfs).as_str());
            m.append(")");
            Err(m)
        }
    }
}

/// Strings that start with an Arazzo expression namespace.
pub open spec fn expression_like(s: Seq<char>) -> bool {
    text::starts_with(s, "$inputs."@) || text::starts_with(s, "$workflow."@) || text::starts_with(s, "$steps."@)
        || s == "$response.statusCode"@ || text::starts_with(s, "$response.body"@)
        || text::starts_with(s, "$response.header."@)
}

/// Whether a string value is an Arazzo runtime expression (literals such
/// as `"$10 fee"` are not).
pub fn looks_like_expression(s: &str) -> (b: bool)
    ensures
        b == expression_like(s@),
{
    let v = text::chars_of(s);
    let p = |x: &str| -> (r: bool)
        ensures
            r == text::starts_with(v@, x@),
        { text::starts_with_exec(&v, &text::chars_of(x)) };
    p("$inputs.") || p("$workflow.") || p("$steps.") || crate::json::str_eq(s, "$response.statusCode")
        || p("$response.body") || p("$response.header.")
}

/// A step parameter's location: the step's own `in:`, else the location
/// of the operation's parameter of that name (the first), else the error.
pub open spec fn param_location_of(
    step_in: Option<Seq<char>>,
    name: Seq<char>,
    op_params: Seq<crate::ir::ParamInfo>,
) -> Option<Seq<char>> {
    match step_in {
        Some(l) => Some(l),
        None => match crate::chain::first_param_index(op_params, name) {
            Some(i) => Some(crate::ir::location_text(op_params[i].location)),
            None => None,
        },
    }
}

/// Pick a step parameter's location.
pub fn parameter_location(
    step_in: &Option<String>,
    name: &str,
    op: &crate::ir::OperationInfo,
    step_id: &str,
) -> (r: Result<String, String>)
    ensures
        match (r, param_location_of(crate::mcp::tools::opt_view(*step_in), name@, op.parameters@)) {
            (Ok(l), Some(m)) => l@ == m,
            (Err(msg), None) => msg@ == "parameter '"@ + name@ + "' has no 'in' field and is not declared on operation '"@
                + op.operation_id@ + "' (silent query fallback would mask doc typos; add 'in: query|path|header|cookie')"@,
            _ => false,
        },
{
    if let Some(l) = step_in {
        return Ok(l.clone());
    }
    let mut i: usize = 0;
    proof {
        crate::chain::lemma_first_param_index(op.parameters@, name@);
    }
    while i < op.parameters.len()
        invariant
            i <= op.parameters.len(),
            step_in is None,
            forall|j: int| 0 <= j < i ==> op.parameters@[j].name@ != name@,
        decreases op.parameters.len() - i,
    {
        if crate::json::str_eq(op.parameters[i].name.as_str(), name) {
            proof {
                crate::chain::lemma_first_param_index(op.parameters@, name@);
                if let Some(x) = crate::chain::first_param_index(op.parameters@, name@) {
                    if x > i {
                        assert(op.parameters@[i as int].name@ == name@);
                    }
                }
            }
            return Ok(crate::ir::location_name(op.parameters[i].location).to_owned());
        }
        i = i + 1;
    }
    let mut m = String::from_str("parameter '");
    m.append(name);
    m.append("' has no 'in' field and is not declared on operation '");
    m.append(op.operation_id.as_str());
    m.append("' (silent query fallback would mask doc typos; add 'in: query|path|header|cookie')");
    proof {
        if let Some(x) = crate::chain::first_param_index(op.parameters@, name@) {
            assert(op.parameters@[x].name@ == name@);
        }
    }
    Err(m)
}

/// A JSON value as a request string.
pub fn json_to_string(v: &Json) -> (r: String)
    ensures
        r@ == crate::mcp::args::scalar_text(v@),
{
    crate::mcp::args::scalar_to_string(v)
}


/// Errors of a workflow run.
#[allow(inconsistent_fields)]
pub enum ArazzoRunError {
    ReadDoc { path: String, reason: String },
    ParseDoc { path: String, reason: String },
    LoadSource { name: String, url: String, reason: String },
    UnsupportedSourceKind { name: String, kind: String },
    WorkflowNotFound(String),
    NoWorkflows,
    UnsupportedStepFeature { step: String, feature: String },
    OperationNotFound { step: String, op_id: String },
    StepMissingOperation { step: String },
    CriterionFailed { step: String, index: usize, condition: String },
    StepHttpError { step: String, status: u16, hint: String },
    Expression { context: String, message: String },
    UnknownSource { step: String, message: String },
    Transport(String),
    ActionDispatch { step: String, source: actions::ActionDispatchError },
    GotoTargetMissing { step: String, target: String, workflow: String },
    RetryExhausted { step: String, limit: u32, last: String },
    WorkflowEndedOnFailure { workflow: String, step: String },
    StepBudgetExhausted { workflow: String, step: String, limit: usize },
}

/// The errors a failure-action chain may absorb: HTTP failures, failed
/// criteria and transport errors.
pub open spec fn recoverable(e: ArazzoRunError) -> bool {
    e is StepHttpError || e is CriterionFailed || e is Transport
}

/// Whether a failure-action chain may absorb this error.
pub fn is_recoverable_step_error(err: &ArazzoRunError) -> (b: bool)
    ensures
        b == recoverable(*err),
{
    match err {
        ArazzoRunError::StepHttpError { .. } | ArazzoRunError::CriterionFailed { .. } | ArazzoRunError::Transport(_) => true,
        _ => false,
    }
}

/// The hint added to a 401/403 from a source that is not bound to a
/// configured API.
pub open spec fn unbound_hint_of(code: u16, synthetic: bool, source_name: Seq<char>, source: Seq<char>) -> Seq<char> {
    if (code == 401 || code == 403) && synthetic {
        " \u{2014} source '"@ + source_name + "' is unbound; try: spall api add "@ + source_name + " "@ + source
            + " && spall auth login "@ + source_name
    } else {
        seq![]
    }
}

/// The hint for a failed step.
pub fn unbound_hint(code: u16, synthetic: bool, source_name: &str, source: &str) -> (r: String)
    ensures
        r@ == unbound_hint_of(code, synthetic, source_name@, source@),
{
    if (code == 401 || code == 403) && synthetic {
        let mut m = String::from_str(" \u{2014} source '");
        m.append(source_name);
        m.append("' is unbound; try: spall api add ");
        m.append(source_name);
        m.append(" ");
        m.append(source);
        m.append(" && spall auth login ");
        m.append(source_name);
        m
    } else {
        String::new()
    }
}

/// The error for a step whose request failed: an HTTP status error with
/// the unbound-source hint, or a transport error carrying the message.
pub fn step_http_error(step_id: &str, err: &crate::error::SpallCliError, synthetic: bool, source_name: &str, source: &str)
    -> (r: ArazzoRunError)
    ensures
        match *err {
            crate::error::SpallCliError::Http4xx(s) | crate::error::SpallCliError::Http5xx(s) =>
                r matches ArazzoRunError::StepHttpError { step, status, hint } && step@ == step_id@ && status == s
                    && hint@ == unbound_hint_of(s, synthetic, source_name@, source@),
            _ => r matches ArazzoRunError::Transport(m) && m@ == crate::error::message_of(*err),
        },
{
    match err {
        crate::error::SpallCliError::Http4xx(s) | crate::error::SpallCliError::Http5xx(s) => {
            ArazzoRunError::StepHttpError { step: step_id.to_owned(), status: *s, hint: unbound_hint(*s, synthetic, source_name, source) }
        }
        other => ArazzoRunError::Transport(other.message()),
    }
}

/// Where the step loop stands: the next step and how many step executions
/// (first runs, `goto` revisits and retries alike) have been charged.
pub struct StepCursor {
    pub idx: usize,
    pub budget: usize,
}

/// Counts one more step execution; refused once `max_steps` have run (a
/// likely `goto` loop): the workflow then fails with `StepBudgetExhausted`
/// naming it, the step about to run and the limit.
pub fn begin_step(cur: &mut StepCursor, max_steps: usize, workflow_id: &str, step_id: &str) -> (r: Result<(), ArazzoRunError>)
    requires
        old(cur).budget <= max_steps,
    ensures
        r is Ok == (old(cur).budget < max_steps),
        r is Ok ==> final(cur).budget == old(cur).budget + 1,
        !(r is Ok) ==> final(cur).budget == old(cur).budget,
        !(r is Ok) ==> (r matches Err(ArazzoRunError::StepBudgetExhausted { workflow, step, limit })
            && workflow@ == workflow_id@ && step@ == step_id@ && limit == max_steps),
        final(cur).idx == old(cur).idx,
        final(cur).budget <= max_steps,
{
    if cur.budget >= max_steps {
        return Err(ArazzoRunError::StepBudgetExhausted {
            workflow: workflow_id.to_owned(),
            step: step_id.to_owned(),
            limit: max_steps,
        });
    }
    cur.budget = cur.budget + 1;
    Ok(())
}

/// How the loop goes on after a step's flow.
pub enum LoopNext {
    /// Run the step at this index next (past the last step: done).
    At(usize),
    /// The workflow ended successfully.
    Done,
    /// The workflow ended on its failure path.
    EndedOnFailure,
    /// A `goto` named no step of the workflow.
    GotoMissing(String),
    /// A retry reached the loop, which only the step wrapper handles.
    RetrySurfaced,
}

/// Index of the last step called `id` (the goto table keeps the last).
pub open spec fn last_step_index(steps: Seq<StepInfo>, id: Seq<char>) -> Option<int>
    decreases steps.len(),
{
    if steps.len() == 0 {
        None
    } else if steps.last().step_id@ == id {
        Some(steps.len() - 1)
    } else {
        last_step_index(steps.drop_last(), id)
    }
}

/// The next position after a step at `idx` ends with `flow`.
pub open spec fn next_of(steps: Seq<StepInfo>, idx: int, flow: FlowV) -> LoopNext {
    match flow {
        FlowV::Continue => LoopNext::At((idx + 1) as usize),
        FlowV::Goto(id) => match last_step_index(steps, id) {
            Some(i) => LoopNext::At(i as usize),
            None => LoopNext::GotoMissing(arbitrary()),
        },
        FlowV::End(true) => LoopNext::Done,
        FlowV::End(false) => LoopNext::EndedOnFailure,
        FlowV::Retry(_, _) => LoopNext::RetrySurfaced,
    }
}

/// Decide where the step loop goes after the step at `idx`.
pub fn next_step(steps: &Vec<StepInfo>, idx: usize, flow: &StepFlow) -> (r: LoopNext)
    requires
        idx < steps.len(),
    ensures
        match r {
            LoopNext::GotoMissing(t) => next_of(steps@, idx as int, flow@) is GotoMissing
                && flow@ == FlowV::Goto(t@),
            LoopNext::At(i) => next_of(steps@, idx as int, flow@) == LoopNext::At(i) && i <= steps@.len(),
            _ => r == next_of(steps@, idx as int, flow@),
        },
{
    match flow {
        StepFlow::Continue => LoopNext::At(idx + 1),
        StepFlow::Goto { step_id } => {
            let mut i: usize = steps.len();
            proof {
                assert(steps@.subrange(0, steps@.len() as int) =~= steps@);
            }
            while i > 0
                invariant
                    i <= steps.len(),
                    flow@ == FlowV::Goto(step_id@),
                    last_step_index(steps@, step_id@) == last_step_index(steps@.subrange(0, i as int), step_id@),
                decreases i,
            {
                proof {
                    let t = steps@.subrange(0, i as int);
                    assert(t.drop_last() =~= steps@.subrange(0, i - 1));
                    assert(t.last() == steps@[i - 1]);
                }
                if crate::json::str_eq(steps[i - 1].step_id.as_str(), step_id.as_str()) {
                    return LoopNext::At(i - 1);
                }
                i = i - 1;
            }
            LoopNext::GotoMissing(step_id.clone())
        }
        StepFlow::End { success } => if *success { LoopNext::Done } else { LoopNext::EndedOnFailure },
        StepFlow::Retry { .. } => LoopNext::RetrySurfaced,
    }
}

/// What the step wrapper does with a recoverable failure, given the
/// failure chain's flow.
pub enum FailureStep {
    /// No action matched: the error stands.
    Propagate,
    /// A `goto` or `end` absorbed the failure; the step is recorded with
    /// this `failedVia` label.
    Absorb(&'static str),
    /// Run the step again after this many milliseconds.
    Retry(u64),
    /// The retry limit was reached.
    Exhausted(u32),
    /// The retry would run one step execution more than the workflow's step
    /// budget allows: the workflow fails with this error.
    BudgetExhausted(ArazzoRunError),
}

/// Decide what a recoverable failure leads to. `attempt` counts the
/// retries made so far; a retry waits at most `MAX_RETRY_WAIT_SECS` and is
/// charged to the step budget in `cur` like any other step execution.
pub fn on_step_failure(flow: &StepFlow, attempt: &mut u32, cur: &mut StepCursor, max_steps: usize, workflow_id: &str,
    step_id: &str) -> (r: FailureStep)
    requires
        old(cur).budget <= max_steps,
    ensures
        final(cur).idx == old(cur).idx,
        final(cur).budget <= max_steps,
        match flow@ {
            FlowV::Continue => r == FailureStep::Propagate && *final(attempt) == *old(attempt)
                && final(cur).budget == old(cur).budget,
            FlowV::Goto(_) => r == FailureStep::Absorb("on-failure-goto") && *final(attempt) == *old(attempt)
                && final(cur).budget == old(cur).budget,
            FlowV::End(_) => r == FailureStep::Absorb("on-failure-end") && *final(attempt) == *old(attempt)
                && final(cur).budget == old(cur).budget,
            FlowV::Retry(after, limit) => if *old(attempt) >= limit {
                r == FailureStep::Exhausted(limit) && *final(attempt) == *old(attempt)
                    && final(cur).budget == old(cur).budget
            } else if old(cur).budget >= max_steps {
                (r matches FailureStep::BudgetExhausted(ArazzoRunError::StepBudgetExhausted { workflow, step, limit })
                    && workflow@ == workflow_id@ && step@ == step_id@ && limit == max_steps)
                    && *final(attempt) == *old(attempt) && final(cur).budget == old(cur).budget
            } else {
                r == FailureStep::Retry(if after < actions::MAX_RETRY_WAIT_SECS * 1000 { after } else { (actions::MAX_RETRY_WAIT_SECS * 1000) as u64 })
                    && *final(attempt) == *old(attempt) + 1
                    && final(cur).budget == old(cur).budget + 1
            },
        },
{
    match flow {
        StepFlow::Continue => FailureStep::Propagate,
        StepFlow::Goto { .. } => FailureStep::Absorb("on-failure-goto"),
        StepFlow::End { .. } => FailureStep::Absorb("on-failure-end"),
        StepFlow::Retry { after_ms, limit } => {
            if *attempt >= *limit {
                return FailureStep::Exhausted(*limit);
            }
            if let Err(e) = begin_step(cur, max_steps, workflow_id, step_id) {
                return FailureStep::BudgetExhausted(e);
            }
            *attempt = *attempt + 1;
            let cap: u64 = actions::MAX_RETRY_WAIT_SECS * 1000;
            FailureStep::Retry(if *after_ms < cap { *after_ms } else { cap })
        }
    }
}

/// Split an `--input k=v` argument at its first `=`.
pub open spec fn input_split(s: Seq<char>) -> Option<(Seq<char>, Seq<char>)> {
    match text::index_of(s, '=') {
        Some(k) => Some((s.subrange(0, k), s.subrange(k + 1, s.len() as int))),
        None => None,
    }
}

/// Split an `--input k=v` argument; the value is parsed as JSON by the
/// caller when it can be.
pub fn split_input(s: &str) -> (r: Result<(String, String), ArazzoRunError>)
    ensures
        match (r, input_split(s@)) {
            (Ok(p), Some(q)) => p.0@ == q.0 && p.1@ == q.1,
            (Err(ArazzoRunError::ParseDoc { path, reason }), None) => path@ == "--input"@
                && reason@ == "expected key=value, got '"@ + s@ + "'"@,
            _ => false,
        },
{
    let v = text::chars_of(s);
    let mut i: usize = 0;
    while i < v.len()
        invariant
            i <= v.len(),
            v@ == s@,
            forall|j: int| 0 <= j < i ==> v@[j] != '=',
        decreases v.len() - i,
    {
        if v[i] == '=' {
            proof {
                text::lemma_index_of_at(v@, '=', i as int);
            }
            let k = text::string_of(&text::v_range(&v, 0, i));
            let val = text::string_of(&text::v_range(&v, i + 1, v.len()));
            return Ok((k, val));
        }
        i = i + 1;
    }
    proof {
        text::lemma_index_of_none(v@, '=');
    }
    let mut m = String::from_str("expected key=value, got '");
    m.append(s);
    m.append("'");
    Err(ArazzoRunError::ParseDoc { path: String::from_str("--input"), reason: m })
}

/// The value of an `--input` value: its JSON when it parses, else the text
/// as a string.
pub open spec fn input_value(v: Seq<char>) -> JsonV {
    match json::json_parsed(v) {
        Ok(j) => j,
        Err(_) => JsonV::Str(v),
    }
}

/// The `--input k=v` arguments read in order into a map kept in key order
/// (a later key replaces an earlier one); `Err(arg)` for the first argument
/// without `=`.
pub open spec fn inputs_fold(acc: Seq<(Seq<char>, JsonV)>, raw: Seq<Seq<char>>) -> Result<Seq<(Seq<char>, JsonV)>, Seq<char>>
    decreases raw.len(),
{
    if raw.len() == 0 {
        Ok(acc)
    } else {
        match input_split(raw[0]) {
            None => Err(raw[0]),
            Some((k, v)) => inputs_fold(crate::strmap::put(acc, k, input_value(v)), raw.drop_first()),
        }
    }
}

/// Parse `--input k=v` arguments (see `inputs_fold`): the workflow inputs in
/// key order, or the error for the first argument without `=`.
pub fn parse_inputs(raw: &Vec<String>) -> (r: Result<Vec<(String, Json)>, ArazzoRunError>)
    ensures
        match (r, inputs_fold(seq![], text::views(raw@))) {
            (Ok(m), Ok(s)) => json::jv_members(m@) == s && crate::strmap::keys_sorted(s),
            (Err(ArazzoRunError::ParseDoc { path, reason }), Err(e)) => path@ == "--input"@
                && reason@ == "expected key=value, got '"@ + e + "'"@,
            _ => false,
        },
{
    let ghost rv = text::views(raw@);
    let mut out: Vec<(String, Json)> = Vec::new();
    let mut i: usize = 0;
    proof {
        json::lemma_jv_members(out@);
        assert(json::jv_members(out@) =~= Seq::<(Seq<char>, JsonV)>::empty());
        assert(rv.subrange(0, rv.len() as int) =~= rv);
    }
    while i < raw.len()
        invariant
            i <= raw.len(),
            rv == text::views(raw@),
            crate::strmap::keys_sorted(json::jv_members(out@)),
            inputs_fold(seq![], rv) == inputs_fold(json::jv_members(out@), rv.subrange(i as int, rv.len() as int)),
        decreases raw.len() - i,
    {
        let ghost rest = rv.subrange(i as int, rv.len() as int);
        proof {
            assert(rest[0] == raw@[i as int]@);
            assert(rest.drop_first() =~= rv.subrange(i + 1, rv.len() as int));
        }
        let (k, v) = match split_input(raw[i].as_str()) {
            Ok(p) => p,
            Err(e) => return Err(e),
        };
        let value = match json::parse_json(v.as_str()) {
            Ok(j) => j,
            Err(_) => Json::Str(v),
        };
        crate::strmap::json_map_insert(&mut out, k, value);
        i = i + 1;
    }
    Ok(out)
}

/// The parent of a path as `std::path::Path::parent` gives it (`None` for a
/// root or an empty path).
pub uninterp spec fn path_parent_of(p: Seq<char>) -> Option<Seq<char>>;

/// `Path::new(p).parent()` as text: the parent, named.
#[verifier::external_body]
fn path_parent(p: &str) -> (r: Option<String>)
    ensures
        crate::auth::opt_view(r) == path_parent_of(p@),
{
    std::path::Path::new(p).parent().map(|q| q.to_string_lossy().into_owned())
}

/// The path `std::path::Path::join` makes of `base` and `rel`.
pub uninterp spec fn path_joined(base: Seq<char>, rel: Seq<char>) -> Seq<char>;

/// `Path::new(base).join(rel)` as text: the joined path, named.
#[verifier::external_body]
fn path_join(base: &str, rel: &str) -> (r: String)
    ensures
        r@ == path_joined(base@, rel@),
{
    std::path::Path::new(base).join(rel).to_string_lossy().into_owned()
}

/// `Path::is_absolute`: on Unix, as std documents, a path is absolute when
/// it starts with the root `/`.
#[verifier::external_body]
fn path_is_absolute(p: &str) -> (b: bool)
    ensures
        b == (p@.len() > 0 && p@[0] == '/'),
{
    std::path::Path::new(p).is_absolute()
}

/// Where a workflow's source description points: a URL or an absolute path
/// as written, a relative path taken from the Arazzo document's directory.
pub open spec fn source_url_of(url: Seq<char>, doc_path: Seq<char>) -> Seq<char> {
    if crate::fetch::is_remote(url) || (url.len() > 0 && url[0] == '/') {
        url
    } else {
        match path_parent_of(doc_path) {
            Some(p) => path_joined(p, url),
            None => url,
        }
    }
}

/// Resolve a source description's URL against the document's path (see
/// `source_url_of`).
pub fn resolve_source_url(url: &str, doc_path: &str) -> (r: String)
    ensures
        r@ == source_url_of(url@, doc_path@),
{
    if crate::fetch::is_remote_source(url) || path_is_absolute(url) {
        return url.to_owned();
    }
    match path_parent(doc_path) {
        Some(p) => path_join(p.as_str(), url),
        None => url.to_owned(),
    }
}

/// Unicode lowercase mapping of a string (`str::to_lowercase`).
pub uninterp spec fn unicode_lower(s: Seq<char>) -> Seq<char>;

/// `str::to_lowercase`: the Unicode lowercase of `s`, which for ASCII text
/// is the ASCII lowercase. Only that ASCII fact is stated beyond naming
/// the result.
#[verifier::external_body]
fn to_lowercase(s: &str) -> (r: String)
    ensures
        r@ == unicode_lower(s@),
        (forall|i: int| 0 <= i < s@.len() ==> (s@[i] as u32) < 128) ==> r@ == text::lower(s@),
{
    s.to_lowercase()
}

/// `_`, space and `.` written as `-`.
pub open spec fn dashes_for_separators(s: Seq<char>) -> Seq<char> {
    s.map_values(|c: char| if c == '_' || c == ' ' || c == '.' { '-' } else { c })
}

/// The resolver's normalized operation id: separators as `-`, lowercased.
pub open spec fn normalized_op_id(raw: Seq<char>) -> Seq<char> {
    unicode_lower(dashes_for_separators(raw))
}

/// Normalize an operation id the way the spec resolver does.
pub fn normalize_op_id(raw: &str) -> (r: String)
    ensures
        r@ == normalized_op_id(raw@),
{
    let v = text::chars_of(raw);
    let mut out: Vec<char> = Vec::new();
    let mut i: usize = 0;
    while i < v.len()
        invariant
            i <= v.len(),
            v@ == raw@,
            out@ == dashes_for_separators(v@.subrange(0, i as int)),
        decreases v.len() - i,
    {
        let c = v[i];
        out.push(if c == '_' || c == ' ' || c == '.' { '-' } else { c });
        proof {
            assert(dashes_for_separators(v@.subrange(0, i + 1)) =~= dashes_for_separators(v@.subrange(0, i as int)).push(
                if c == '_' || c == ' ' || c == '.' { '-' } else { c }));
        }
        i = i + 1;
    }
    proof {
        assert(v@.subrange(0, v@.len() as int) =~= v@);
    }
    let d = text::string_of(&out);
    to_lowercase(d.as_str())
}

/// Index of the first operation whose id is `id`.
pub open spec fn op_index(ops: Seq<crate::ir::OperationInfo>, id: Seq<char>) -> Option<int>
    decreases ops.len(),
{
    if ops.len() == 0 {
        None
    } else if ops[0].operation_id@ == id {
        Some(0)
    } else {
        match op_index(ops.drop_first(), id) {
            Some(i) => Some(i + 1),
            None => None,
        }
    }
}

/// The operation a step's id names: the exact id, else its normalized form.
pub open spec fn find_op_of(ops: Seq<crate::ir::OperationInfo>, id: Seq<char>) -> Option<int> {
    match op_index(ops, id) {
        Some(i) => Some(i),
        None => op_index(ops, normalized_op_id(id)),
    }
}

/// Index of the first operation with id `id`.
pub(crate) fn op_index_exec(ops: &Vec<crate::ir::OperationInfo>, id: &str) -> (r: Option<usize>)
    ensures
        match r {
            Some(i) => op_index(ops@, id@) == Some(i as int) && i < ops.len(),
            None => op_index(ops@, id@) is None,
        },
{
    let mut i: usize = 0;
    proof {
        assert(ops@.subrange(0, ops@.len() as int) =~= ops@);
    }
    while i < ops.len()
        invariant
            i <= ops.len(),
            op_index(ops@, id@) == match op_index(ops@.subrange(i as int, ops@.len() as int), id@) {
                Some(k) => Some(k + i),
                None => None,
            },
        decreases ops.len() - i,
    {
        proof {
            let rest = ops@.subrange(i as int, ops@.len() as int);
            assert(rest.drop_first() =~= ops@.subrange(i + 1, ops@.len() as int));
            assert(rest[0] == ops@[i as int]);
        }
        if crate::json::str_eq(ops[i].operation_id.as_str(), id) {
            return Some(i);
        }
        i = i + 1;
    }
    None
}

/// Look up an operation by its raw or normalized id.
pub fn find_op(ops: &Vec<crate::ir::OperationInfo>, op_id: &str) -> (r: Option<usize>)
    ensures
        match r {
            Some(i) => find_op_of(ops@, op_id@) == Some(i as int),
            None => find_op_of(ops@, op_id@) is None,
        },
{
    match op_index_exec(ops, op_id) {
        Some(i) => Some(i),
        None => {
            let n = normalize_op_id(op_id);
            op_index_exec(ops, n.as_str())
        }
    }
}

/// The run outcome of one step.
pub struct StepOutcome {
    pub step_id: String,
    pub status: u16,
    /// The step's outputs, in key order.
    pub outputs: Vec<(String, Json)>,
    pub dry_run: bool,
    /// How a failure was absorbed, when one was.
    pub failed_via: Option<String>,
}

/// The outcome of a workflow run.
pub struct RunOutcome {
    pub workflow_id: String,
    pub steps: Vec<StepOutcome>,
    pub outputs: Vec<(String, Json)>,
}

/// The JSON record of one step.
pub open spec fn step_json(s: StepOutcome) -> JsonV {
    JsonV::Object(seq![
        ("stepId"@, JsonV::Str(s.step_id@)),
        ("status"@, JsonV::Number(text::dec(s.status as nat))),
        ("dryRun"@, JsonV::Bool(s.dry_run)),
        ("outputs"@, JsonV::Object(json::jv_members(s.outputs@))),
    ] + failed_via_member(s.failed_via))
}

/// The `failedVia` member of a step record, present only when a failure was absorbed.
pub open spec fn failed_via_member(o: Option<String>) -> Seq<(Seq<char>, JsonV)> {
    match o {
        Some(v) => seq![("failedVia"@, JsonV::Str(v@))],
        None => seq![],
    }
}

/// The JSON form of a run outcome.
pub open spec fn outcome_json(o: RunOutcome) -> JsonV {
    JsonV::Object(seq![
        ("workflowId"@, JsonV::Str(o.workflow_id@)),
        ("outputs"@, JsonV::Object(json::jv_members(o.outputs@))),
        ("steps"@, JsonV::Array(o.steps@.map_values(|s: StepOutcome| step_json(s)))),
    ])
}

/// Copies of object members.
fn copy_members(m: &Vec<(String, Json)>) -> (r: Vec<(String, Json)>)
    ensures
        json::jv_members(r@) == json::jv_members(m@),
{
    let mut out: Vec<(String, Json)> = Vec::new();
    let mut i: usize = 0;
    while i < m.len()
        invariant
            i <= m.len(),
            out@.len() == i,
            forall|k: int| 0 <= k < i ==> (#[trigger] out@[k]).0@ == m@[k].0@ && out@[k].1@ == m@[k].1@,
        decreases m.len() - i,
    {
        let key = m[i].0.clone();
        let val = json::copy_json(&m[i].1);
        proof {
            assert(key@ == m@[i as int].0@);
            assert(val@ == m@[i as int].1@);
        }
        out.push((key, val));
        i = i + 1;
    }
    proof {
        json::lemma_jv_members(out@);
        json::lemma_jv_members(m@);
        assert forall|k: int| 0 <= k < m@.len() implies json::jv_members(out@)[k] == json::jv_members(m@)[k] by {
            let o = out@[k];
            assert(o.0@ == m@[k].0@ && o.1@ == m@[k].1@);
        }
        assert(json::jv_members(out@) =~= json::jv_members(m@));
    }
    out
}

/// A named JSON member.
fn named(name: &str, v: Json) -> (r: (String, Json))
    ensures
        r.0@ == name@,
        r.1@ == v@,
{
    (name.to_owned(), v)
}

/// The JSON record of one step.
fn step_to_json(s: &StepOutcome) -> (r: Json)
    ensures
        r@ == step_json(*s),
{
    let mut m: Vec<(String, Json)> = Vec::new();
    m.push(named("stepId", Json::Str(s.step_id.clone())));
    m.push(named("status", Json::Number(text::dec_string(s.status as u128))));
    m.push(named("dryRun", Json::Bool(s.dry_run)));
    m.push(named("outputs", Json::Object(copy_members(&s.outputs))));
    match &s.failed_via {
        Some(v) => m.push(named("failedVia", Json::Str(v.clone()))),
        None => {}
    }
    proof {
        json::lemma_jv_members(m@);
        let tail = failed_via_member(s.failed_via);
        assert(json::jv_members(m@) =~= seq![
            ("stepId"@, JsonV::Str(s.step_id@)),
            ("status"@, JsonV::Number(text::dec(s.status as nat))),
            ("dryRun"@, JsonV::Bool(s.dry_run)),
            ("outputs"@, JsonV::Object(json::jv_members(s.outputs@))),
        ] + tail);
    }
    Json::Object(m)
}

/// Map a run outcome into the JSON written to stdout.
pub fn outcome_to_json(outcome: &RunOutcome) -> (r: Json)
    ensures
        r@ == outcome_json(*outcome),
{
    let mut steps: Vec<Json> = Vec::new();
    let mut i: usize = 0;
    while i < outcome.steps.len()
        invariant
            i <= outcome.steps.len(),
            steps@.len() == i,
            forall|k: int| 0 <= k < i ==> #[trigger] steps@[k]@ == step_json(outcome.steps@[k]),
        decreases outcome.steps.len() - i,
    {
        steps.push(step_to_json(&outcome.steps[i]));
        i = i + 1;
    }
    proof {
        json::lemma_jv_items(steps@);
        assert forall|k: int| 0 <= k < outcome.steps@.len() implies json::jv_items(steps@)[k]
            == outcome.steps@.map_values(|s: StepOutcome| step_json(s))[k] by {
            assert(steps@[k]@ == step_json(outcome.steps@[k]));
        }
        assert(json::jv_items(steps@) =~= outcome.steps@.map_values(|s: StepOutcome| step_json(s)));
    }
    let mut m: Vec<(String, Json)> = Vec::new();
    m.push(named("workflowId", Json::Str(outcome.workflow_id.clone())));
    m.push(named("outputs", Json::Object(copy_members(&outcome.outputs))));
    m.push(named("steps", Json::Array(steps)));
    proof {
        json::lemma_jv_members(m@);
        assert(json::jv_members(m@) =~= seq![
            ("workflowId"@, JsonV::Str(outcome.workflow_id@)),
            ("outputs"@, JsonV::Object(json::jv_members(outcome.outputs@))),
            ("steps"@, JsonV::Array(outcome.steps@.map_values(|s: StepOutcome| step_json(s)))),
        ]);
    }
    Json::Object(m)
}

/// A step parameter once evaluated: its name, its value as request text, and
/// the location it goes to.
pub struct RoutedParam {
    pub name: String,
    pub value: String,
    pub location: String,
}

/// The argument buckets after routing parameters into them in order; a
/// later parameter of the same name and location overrides an earlier one.
/// `Err(location)` for the first location other than `path`, `query`,
/// `header`, `cookie`.
pub open spec fn route_params(a: crate::execute::ArgsView, ps: Seq<(Seq<char>, Seq<char>, Seq<char>)>) -> Result<crate::execute::ArgsView, Seq<char>>
    decreases ps.len(),
{
    if ps.len() == 0 {
        Ok(a)
    } else {
        let (n, v, l) = ps[0];
        let next = if l == "path"@ {
            Some(crate::execute::ArgsView { path: crate::strmap::put(a.path, n, v), ..a })
        } else if l == "query"@ {
            Some(crate::execute::ArgsView { query: crate::strmap::put(a.query, n, v), ..a })
        } else if l == "header"@ {
            Some(crate::execute::ArgsView { header: crate::strmap::put(a.header, n, v), ..a })
        } else if l == "cookie"@ {
            Some(crate::execute::ArgsView { cookie: crate::strmap::put(a.cookie, n, v), ..a })
        } else {
            None
        };
        match next {
            Some(b) => route_params(b, ps.drop_first()),
            None => Err(l),
        }
    }
}

/// The plain values of routed parameters.
pub open spec fn routed_views(ps: Seq<RoutedParam>) -> Seq<(Seq<char>, Seq<char>, Seq<char>)> {
    ps.map_values(|p: RoutedParam| (p.name@, p.value@, p.location@))
}

/// The plain values of a step's request body and its content type.
pub open spec fn body_view(body: Option<(Json, Option<String>)>) -> Option<(JsonV, Option<Seq<char>>)> {
    match body {
        Some((j, ct)) => Some((j@, crate::mcp::tools::opt_view(ct))),
        None => None,
    }
}

/// The arguments of a step: its parameters routed by location, then the
/// request body with its `Content-Type` header when one is given.
pub open spec fn step_args(
    ps: Seq<(Seq<char>, Seq<char>, Seq<char>)>,
    body: Option<(JsonV, Option<Seq<char>>)>,
) -> Result<crate::execute::ArgsView, Seq<char>> {
    match route_params(crate::execute::empty_args(), ps) {
        Err(l) => Err(l),
        Ok(a) => match body {
            None => Ok(a),
            Some((payload, ct)) => {
                let b = crate::execute::ArgsView { body: Some(payload), ..a };
                match ct {
                    Some(c) => Ok(crate::execute::ArgsView { header: crate::strmap::put(b.header, "Content-Type"@, c), ..b }),
                    None => Ok(b),
                }
            },
        }
    }
}

/// The request arguments of a step (see `step_args`); an unsupported
/// location is the error `parameter 'in: <location>'`.
pub fn build_step_args(
    step_id: &str,
    params: &Vec<RoutedParam>,
    body: Option<(Json, Option<String>)>,
) -> (r: Result<crate::execute::ProgrammaticArgs, ArazzoRunError>)
    ensures
        match r {
            Ok(args) => step_args(routed_views(params@), body_view(body)) == Ok::<crate::execute::ArgsView, Seq<char>>(args.args_view())
                && args.auth_override is None
                && args.server_override is None && args.retry_count == 1 && args.retry_max_wait_secs == 60,
            Err(ArazzoRunError::UnsupportedStepFeature { step, feature }) => step@ == step_id@
                && (step_args(routed_views(params@), body_view(body)) matches Err(l) && feature@ == "parameter 'in: "@ + l + "'"@),
            Err(_) => false,
        },
{
    let mut args = crate::execute::ProgrammaticArgs::new();
    let ghost all = routed_views(params@);
    let mut i: usize = 0;
    proof {
        assert(all.subrange(0, all.len() as int) =~= all);
    }
    while i < params.len()
        invariant
            i <= params.len(),
            all == routed_views(params@),
            crate::execute::args_wf(args.args_view()),
            route_params(crate::execute::empty_args(), all)
                == route_params(args.args_view(), all.subrange(i as int, all.len() as int)),
            args.auth_override is None,
            args.server_override is None,
            args.retry_count == 1,
            args.retry_max_wait_secs == 60,
        decreases params.len() - i,
    {
        let p = &params[i];
        let ghost before = args.args_view();
        proof {
            let rest = all.subrange(i as int, all.len() as int);
            assert(rest.drop_first() =~= all.subrange(i + 1, all.len() as int));
            assert(rest[0] == (p.name@, p.value@, p.location@));
        }
        let loc = p.location.as_str();
        if crate::json::str_eq(loc, "path") {
            crate::strmap::map_insert(&mut args.path, p.name.clone(), p.value.clone());
        } else if crate::json::str_eq(loc, "query") {
            crate::strmap::map_insert(&mut args.query, p.name.clone(), p.value.clone());
        } else if crate::json::str_eq(loc, "header") {
            crate::strmap::map_insert(&mut args.header, p.name.clone(), p.value.clone());
        } else if crate::json::str_eq(loc, "cookie") {
            crate::strmap::map_insert(&mut args.cookie, p.name.clone(), p.value.clone());
        } else {
            let mut feature = "parameter 'in: ".to_owned();
            feature.append(loc);
            feature.append("'");
            return Err(ArazzoRunError::UnsupportedStepFeature { step: step_id.to_owned(), feature });
        }
        i = i + 1;
    }
    proof {
        assert(all.subrange(all.len() as int, all.len() as int) =~= Seq::<(Seq<char>, Seq<char>, Seq<char>)>::empty());
    }
    match body {
        None => {},
        Some((payload, ct)) => {
            args.body = Some(payload);
            if let Some(c) = ct {
                crate::strmap::map_insert(&mut args.header, "Content-Type".to_owned(), c);
            }
        },
    }
    Ok(args)
}


/// The sources of a run: each source's name and its operations (names in
/// ascending order, as the run keeps them).
pub open spec fn source_names(sources: Seq<(String, Vec<crate::ir::OperationInfo>)>) -> Seq<Seq<char>> {
    sources.map_values(|e: (String, Vec<crate::ir::OperationInfo>)| e.0@)
}

/// The first source named `n`.
pub open spec fn source_index(sources: Seq<(String, Vec<crate::ir::OperationInfo>)>, n: Seq<char>) -> Option<int>
    decreases sources.len(),
{
    if sources.len() == 0 {
        None
    } else if sources[0].0@ == n {
        Some(0)
    } else {
        match source_index(sources.drop_first(), n) {
            Some(i) => Some(i + 1),
            None => None,
        }
    }
}

/// Each source that holds the operation `id`, in order, as its position
/// and the operation's position in it.
pub open spec fn op_hits(sources: Seq<(String, Vec<crate::ir::OperationInfo>)>, id: Seq<char>) -> Seq<(int, int)>
    decreases sources.len(),
{
    if sources.len() == 0 {
        seq![]
    } else {
        let rest = op_hits(sources.drop_last(), id);
        match find_op_of(sources.last().1@, id) {
            Some(j) => rest.push((sources.len() - 1, j)),
            None => rest,
        }
    }
}

/// Where a step's operation lives, as `(source, operation)` positions, or
/// the error: an `operationPath` or a nested `workflowId` is unsupported; a
/// step needs an `operationId`; `<source>.<opId>` names a source and an
/// operation in it (when no source has that name, the whole reference is
/// looked up as an id); an unqualified id must be in exactly one source.
pub open spec fn step_operation_of(
    step: StepInfo,
    sources: Seq<(String, Vec<crate::ir::OperationInfo>)>,
) -> Result<(int, int), ArazzoRunErrorV> {
    let id = step.step_id@;
    if step.operation_path is Some {
        Err(ArazzoRunErrorV::Unsupported(id, "operationPath (v2, see issue #5)"@))
    } else if step.workflow_id is Some {
        Err(ArazzoRunErrorV::Unsupported(id, "workflowId (nested workflows are v2)"@))
    } else if step.operation_id is None {
        Err(ArazzoRunErrorV::MissingOperation(id))
    } else {
        let r = step.operation_id.unwrap()@;
        let qualified = match text::split_once(r, '.') {
            Some((src, op)) => match source_index(sources, src) {
                Some(k) => Some(match find_op_of(sources[k].1@, op) {
                    Some(j) => Ok((k, j)),
                    None => Err(ArazzoRunErrorV::OperationNotFound(id, r)),
                }),
                None => None,
            },
            None => None,
        };
        match qualified {
            Some(res) => res,
            None => {
                let hits = op_hits(sources, r);
                if hits.len() == 1 {
                    Ok(hits[0])
                } else if hits.len() == 0 {
                    Err(ArazzoRunErrorV::OperationNotFound(id, r))
                } else {
                    Err(ArazzoRunErrorV::Ambiguous(id, "operationId '"@ + r + "' is ambiguous across multiple sources; use '<sourceName>."@ + r + "'"@))
                }
            },
        }
    }
}

/// The errors of `step_operation_of` as plain values.
pub enum ArazzoRunErrorV {
    /// `UnsupportedStepFeature { step, feature }`.
    Unsupported(Seq<char>, Seq<char>),
    /// `StepMissingOperation { step }`.
    MissingOperation(Seq<char>),
    /// `OperationNotFound { step, op_id }`.
    OperationNotFound(Seq<char>, Seq<char>),
    /// `UnknownSource { step, message }`.
    Ambiguous(Seq<char>, Seq<char>),
}

/// The first source named `n`.
fn source_index_exec(sources: &Vec<(String, Vec<crate::ir::OperationInfo>)>, n: &str) -> (r: Option<usize>)
    ensures
        match r {
            Some(k) => source_index(sources@, n@) == Some(k as int),
            None => source_index(sources@, n@) is None,
        },
{
    let mut i: usize = 0;
    proof {
        assert(sources@.subrange(0, sources@.len() as int) =~= sources@);
    }
    while i < sources.len()
        invariant
            i <= sources.len(),
            source_index(sources@, n@) == match source_index(sources@.subrange(i as int, sources@.len() as int), n@) {
                Some(k) => Some(k + i),
                None => None,
            },
        decreases sources.len() - i,
    {
        proof {
            let rest = sources@.subrange(i as int, sources@.len() as int);
            assert(rest.drop_first() =~= sources@.subrange(i + 1, sources@.len() as int));
            assert(rest[0] == sources@[i as int]);
        }
        if crate::json::str_eq(sources[i].0.as_str(), n) {
            return Some(i);
        }
        i = i + 1;
    }
    None
}

/// Where a step's operation lives (see `step_operation_of`).
pub fn resolve_step_operation(step: &StepInfo, sources: &Vec<(String, Vec<crate::ir::OperationInfo>)>) -> (r: Result<(usize, usize), ArazzoRunError>)
    ensures
        match (r, step_operation_of(*step, sources@)) {
            (Ok((k, j)), Ok((a, b))) => k as int == a && j as int == b,
            (Err(ArazzoRunError::UnsupportedStepFeature { step: s, feature }), Err(ArazzoRunErrorV::Unsupported(x, y))) => s@ == x && feature@ == y,
            (Err(ArazzoRunError::StepMissingOperation { step: s }), Err(ArazzoRunErrorV::MissingOperation(x))) => s@ == x,
            (Err(ArazzoRunError::OperationNotFound { step: s, op_id }), Err(ArazzoRunErrorV::OperationNotFound(x, y))) => s@ == x && op_id@ == y,
            (Err(ArazzoRunError::UnknownSource { step: s, message }), Err(ArazzoRunErrorV::Ambiguous(x, y))) => s@ == x && message@ == y,
            _ => false,
        },
{
    if step.operation_path.is_some() {
        return Err(ArazzoRunError::UnsupportedStepFeature {
            step: step.step_id.clone(),
            feature: "operationPath (v2, see issue #5)".to_owned(),
        });
    }
    if step.workflow_id.is_some() {
        return Err(ArazzoRunError::UnsupportedStepFeature {
            step: step.step_id.clone(),
            feature: "workflowId (nested workflows are v2)".to_owned(),
        });
    }
    let op_ref: &str = match &step.operation_id {
        Some(o) => o.as_str(),
        None => return Err(ArazzoRunError::StepMissingOperation { step: step.step_id.clone() }),
    };
    if let Some((src, op)) = text::split_once_exec(op_ref, '.') {
        if let Some(k) = source_index_exec(sources, src.as_str()) {
            proof {
                lemma_source_index(sources@, src@);
            }
            return match find_op(&sources[k].1, op.as_str()) {
                Some(j) => Ok((k, j)),
                None => Err(ArazzoRunError::OperationNotFound { step: step.step_id.clone(), op_id: op_ref.to_owned() }),
            };
        }
    }
    let mut count: usize = 0;
    let mut first: (usize, usize) = (0, 0);
    let mut i: usize = 0;
    while i < sources.len()
        invariant
            i <= sources.len(),
            count == op_hits(sources@.subrange(0, i as int), op_ref@).len(),
            count <= i,
            count > 0 ==> op_hits(sources@.subrange(0, i as int), op_ref@)[0] == (first.0 as int, first.1 as int),
        decreases sources.len() - i,
    {
        proof {
            assert(sources@.subrange(0, i + 1).drop_last() =~= sources@.subrange(0, i as int));
            assert(sources@.subrange(0, i + 1).last() == sources@[i as int]);
        }
        if let Some(j) = find_op(&sources[i].1, op_ref) {
            if count == 0 {
                first = (i, j);
            }
            count = count + 1;
        }
        i = i + 1;
    }
    proof {
        assert(sources@.subrange(0, sources@.len() as int) =~= sources@);
    }
    if count == 1 {
        Ok(first)
    } else if count == 0 {
        Err(ArazzoRunError::OperationNotFound { step: step.step_id.clone(), op_id: op_ref.to_owned() })
    } else {
        let mut m = "operationId '".to_owned();
        m.append(op_ref);
        m.append("' is ambiguous across multiple sources; use '<sourceName>.");
        m.append(op_ref);
        m.append("'");
        Err(ArazzoRunError::UnknownSource { step: step.step_id.clone(), message: m })
    }
}

/// `source_index` finds a source of that name.
pub proof fn lemma_source_index(sources: Seq<(String, Vec<crate::ir::OperationInfo>)>, n: Seq<char>)
    ensures
        source_index(sources, n) matches Some(k) ==> 0 <= k < sources.len() && sources[k].0@ == n,
    decreases sources.len(),
{
    if sources.len() > 0 && sources[0].0@ != n {
        lemma_source_index(sources.drop_first(), n);
    }
}

/// The action chain that applies: the step's own (even an empty one), else
/// the workflow's.
pub open spec fn effective_chain<A>(step_chain: Option<Seq<A>>, workflow_chain: Seq<A>) -> Seq<A> {
    match step_chain {
        Some(c) => c,
        None => workflow_chain,
    }
}

/// The action chain that applies to a step (see `effective_chain`).
pub fn effective_chain_of<'a, A>(step_chain: &'a Option<Vec<A>>, workflow_chain: &'a Vec<A>) -> (r: &'a Vec<A>)
    ensures
        r@ == effective_chain(match step_chain { Some(c) => Some(c@), None => None }, workflow_chain@),
{
    match step_chain {
        Some(c) => c,
        None => workflow_chain,
    }
}

/// The record of a step whose failure an action absorbed: the status of
/// the last response (0 when the failure came from criteria alone), no
/// outputs, and how it was absorbed.
pub fn synthetic_failure_outcome(step_id: &str, last_status: Option<u16>, via: &str) -> (r: StepOutcome)
    ensures
        r.step_id@ == step_id@,
        r.status == match last_status { Some(s) => s, None => 0u16 },
        r.outputs@.len() == 0,
        !r.dry_run,
        r.failed_via matches Some(v) && v@ == via@,
{
    StepOutcome {
        step_id: step_id.to_owned(),
        status: match last_status {
            Some(s) => s,
            None => 0,
        },
        outputs: Vec::new(),
        dry_run: false,
        failed_via: Some(via.to_owned()),
    }
}


/// The record of a step that a dry run only previewed: no status (0), no
/// outputs, marked as a dry run, nothing absorbed.
pub fn dry_run_outcome(step_id: &str) -> (r: StepOutcome)
    ensures
        r.step_id@ == step_id@,
        r.status == 0,
        r.outputs@.len() == 0,
        r.dry_run,
        r.failed_via is None,
{
    StepOutcome {
        step_id: step_id.to_owned(),
        status: 0,
        outputs: Vec::new(),
        dry_run: true,
        failed_via: None,
    }
}

/// The message of each run error.
pub open spec fn run_error_text(e: ArazzoRunError) -> Seq<char> {
    match e {
        ArazzoRunError::ReadDoc { path, reason } => "failed to read Arazzo document "@ + path@ + ": "@ + reason@,
        ArazzoRunError::ParseDoc { path, reason } => "failed to parse Arazzo document "@ + path@ + ": "@ + reason@,
        ArazzoRunError::LoadSource { name, url, reason } => "failed to load source '"@ + name@ + "' ("@ + url@ + "): "@ + reason@,
        ArazzoRunError::UnsupportedSourceKind { name, kind } => "source '"@ + name@ + "' has unsupported type '"@ + kind@
            + "' (only 'openapi' is supported in v1)"@,
        ArazzoRunError::WorkflowNotFound(w) => "workflow '"@ + w@ + "' not found in document"@,
        ArazzoRunError::NoWorkflows => "document has no workflows"@,
        ArazzoRunError::UnsupportedStepFeature { step, feature } => "step '"@ + step@ + "' uses unsupported feature: "@ + feature@,
        ArazzoRunError::OperationNotFound { step, op_id } => "step '"@ + step@ + "' references unknown operation '"@ + op_id@ + "'"@,
        ArazzoRunError::StepMissingOperation { step } => "step '"@ + step@
            + "' has no operationId set (operationPath and workflowId are v2)"@,
        ArazzoRunError::CriterionFailed { step, index, condition } => "step '"@ + step@ + "' failed successCriteria #"@
            + text::dec(index as nat) + ": condition '"@ + condition@ + "'"@,
        ArazzoRunError::StepHttpError { step, status, hint } => "step '"@ + step@ + "' returned HTTP "@ + text::dec(status as nat) + hint@,
        ArazzoRunError::Expression { context, message } => "expression error in "@ + context@ + ": "@ + message@,
        ArazzoRunError::UnknownSource { step, message } => "step '"@ + step@ + "': "@ + message@,
        ArazzoRunError::Transport(m) => "transport error: "@ + m@,
        ArazzoRunError::ActionDispatch { step, source } => "step '"@ + step@ + "' action dispatch: "@ + actions::dispatch_message(source@),
        ArazzoRunError::GotoTargetMissing { step, target, workflow } => "step '"@ + step@ + "' goto target '"@ + target@
            + "' does not exist in workflow '"@ + workflow@ + "'"@,
        ArazzoRunError::RetryExhausted { step, limit, last } => "step '"@ + step@ + "' retry limit ("@ + text::dec(limit as nat)
            + ") exhausted; last error: "@ + last@,
        ArazzoRunError::WorkflowEndedOnFailure { workflow, step } => "workflow '"@ + workflow@
            + "' ended on the failure path via failureAction at step '"@ + step@ + "'"@,
        ArazzoRunError::StepBudgetExhausted { workflow, step, limit } => "workflow '"@ + workflow@ + "' exceeded --spall-max-steps ("@
            + text::dec(limit as nat) + ") \u{2014} possible infinite goto loop, last step was '"@ + step@ + "'"@,
    }
}

impl ArazzoRunError {
    /// The message of this error (see `run_error_text`).
    pub fn message(&self) -> (m: String)
        ensures
            m@ == run_error_text(*self),
    {
        let mut m = String::new();
        match self {
            ArazzoRunError::ReadDoc { path, reason } => {
                m.append("failed to read Arazzo document ");
                m.append(path.as_str());
                m.append(": ");
                m.append(reason.as_str());
            },
            ArazzoRunError::ParseDoc { path, reason } => {
                m.append("failed to parse Arazzo document ");
                m.append(path.as_str());
                m.append(": ");
                m.append(reason.as_str());
            },
            ArazzoRunError::LoadSource { name, url, reason } => {
                m.append("failed to load source '");
                m.append(name.as_str());
                m.append("' (");
                m.append(url.as_str());
                m.append("): ");
                m.append(reason.as_str());
            },
            ArazzoRunError::UnsupportedSourceKind { name, kind } => {
                m.append("source '");
                m.append(name.as_str());
                m.append("' has unsupported type '");
                m.append(kind.as_str());
                m.append("' (only 'openapi' is supported in v1)");
            },
            ArazzoRunError::WorkflowNotFound(w) => {
                m.append("workflow '");
                m.append(w.as_str());
                m.append("' not found in document");
            },
            ArazzoRunError::NoWorkflows => {
                m.append("document has no workflows");
            },
            ArazzoRunError::UnsupportedStepFeature { step, feature } => {
                m.append("step '");
                m.append(step.as_str());
                m.append("' uses unsupported feature: ");
                m.append(feature.as_str());
            },
            ArazzoRunError::OperationNotFound { step, op_id } => {
                m.append("step '");
                m.append(step.as_str());
                m.append("' references unknown operation '");
                m.append(op_id.as_str());
                m.append("'");
            },
            ArazzoRunError::StepMissingOperation { step } => {
                m.append("step '");
                m.append(step.as_str());
                m.append("' has no operationId set (operationPath and workflowId are v2)");
            },
            ArazzoRunError::CriterionFailed { step, index, condition } => {
                m.append("step '");
                m.append(step.as_str());
                m.append("' failed successCriteria #");
                text::push_dec(&mut m, *index as u128);
                m.append(": condition '");
                m.append(condition.as_str());
                m.append("'");
            },
            ArazzoRunError::StepHttpError { step, status, hint } => {
                m.append("step '");
                m.append(step.as_str());
                m.append("' returned HTTP ");
                text::push_dec(&mut m, *status as u128);
                m.append(hint.as_str());
            },
            ArazzoRunError::Expression { context, message } => {
                m.append("expression error in ");
                m.append(context.as_str());
                m.append(": ");
                m.append(message.as_str());
            },
            ArazzoRunError::UnknownSource { step, message } => {
                m.append("step '");
                m.append(step.as_str());
                m.append("': ");
                m.append(message.as_str());
            },
            ArazzoRunError::Transport(t) => {
                m.append("transport error: ");
                m.append(t.as_str());
            },
            ArazzoRunError::ActionDispatch { step, source } => {
                m.append("step '");
                m.append(step.as_str());
                m.append("' action dispatch: ");
                let d = source.message();
                m.append(d.as_str());
            },
            ArazzoRunError::GotoTargetMissing { step, target, workflow } => {
                m.append("step '");
                m.append(step.as_str());
                m.append("' goto target '");
                m.append(target.as_str());
                m.append("' does not exist in workflow '");
                m.append(workflow.as_str());
                m.append("'");
            },
            ArazzoRunError::RetryExhausted { step, limit, last } => {
                m.append("step '");
                m.append(step.as_str());
                m.append("' retry limit (");
                text::push_dec(&mut m, *limit as u128);
                m.append(") exhausted; last error: ");
                m.append(last.as_str());
            },
            ArazzoRunError::WorkflowEndedOnFailure { workflow, step } => {
                m.append("workflow '");
                m.append(workflow.as_str());
                m.append("' ended on the failure path via failureAction at step '");
                m.append(step.as_str());
                m.append("'");
            },
            ArazzoRunError::StepBudgetExhausted { workflow, step, limit } => {
                m.append("workflow '");
                m.append(workflow.as_str());
                m.append("' exceeded --spall-max-steps (");
                text::push_dec(&mut m, *limit as u128);
                m.append(") \u{2014} possible infinite goto loop, last step was '");
                m.append(step.as_str());
                m.append("'");
            },
        }
        proof {
            assert(m@ =~= run_error_text(*self));
        }
        m
    }
}

/// The program error for a run error: a transport failure is a network
/// error, an HTTP failure of a step keeps its 4xx or 5xx status, anything
/// else is a usage error carrying the run error's message.
pub fn into_cli_err(e: ArazzoRunError) -> (r: crate::error::SpallCliError)
    ensures
        match e {
            ArazzoRunError::Transport(m) => r == crate::error::SpallCliError::Network(m),
            ArazzoRunError::StepHttpError { status, .. } if 400 <= status < 500 => r == crate::error::SpallCliError::Http4xx(status),
            ArazzoRunError::StepHttpError { status, .. } if 500 <= status < 600 => r == crate::error::SpallCliError::Http5xx(status),
            _ => r matches crate::error::SpallCliError::Usage(m) && m@ == run_error_text(e),
        },
{
    match e {
        ArazzoRunError::Transport(m) => crate::error::SpallCliError::Network(m),
        ArazzoRunError::StepHttpError { status, .. } if 400 <= status && status < 500 => crate::error::SpallCliError::Http4xx(status),
        ArazzoRunError::StepHttpError { status, .. } if 500 <= status && status < 600 => crate::error::SpallCliError::Http5xx(status),
        other => crate::error::SpallCliError::Usage(other.message()),
    }
}


/// `""` for one, `"s"` for any other count.
pub open spec fn plural(n: nat) -> Seq<char> {
    if n == 1 { ""@ } else { "s"@ }
}

/// What `spall arazzo validate` prints for a document: one line saying all
/// is well when there is no diagnostic, else one line per diagnostic,
/// `error: ` or `warning: ` before its message.
pub open spec fn validation_lines(file: Seq<char>, workflows: nat, sources: nat, diags: Seq<ValidationDiagnostic>) -> Seq<Seq<char>> {
    if diags.len() == 0 {
        seq!["ok: '"@ + file + "' parses cleanly; all v1 features supported ("@ + text::dec(workflows) + " workflow"@
            + plural(workflows) + ", "@ + text::dec(sources) + " source"@ + plural(sources) + ")."@]
    } else {
        diags.map_values(|d: ValidationDiagnostic| (if d.severity == Severity::Error { "error: "@ } else { "warning: "@ }) + d.message@)
    }
}

/// What `spall arazzo validate` prints (see `validation_lines`), and
/// whether it fails: it does when some diagnostic is an error.
pub fn validation_report(file: &str, workflows: usize, sources: usize, diags: &Vec<ValidationDiagnostic>) -> (r: (Vec<String>, bool))
    ensures
        text::views(r.0@) == validation_lines(file@, workflows as nat, sources as nat, diags@),
        r.1 == exists|i: int| 0 <= i < diags@.len() && diags@[i].severity == Severity::Error,
{
    let mut lines: Vec<String> = Vec::new();
    if diags.len() == 0 {
        let mut m = "ok: '".to_owned();
        m.append(file);
        m.append("' parses cleanly; all v1 features supported (");
        text::push_dec(&mut m, workflows as u128);
        m.append(" workflow");
        let ws: &str = if workflows == 1 { "" } else { "s" };
        assert(ws@ == plural(workflows as nat));
        m.append(ws);
        m.append(", ");
        text::push_dec(&mut m, sources as u128);
        m.append(" source");
        let ss: &str = if sources == 1 { "" } else { "s" };
        assert(ss@ == plural(sources as nat));
        m.append(ss);
        m.append(").");
        let ghost line = m@;
        lines.push(m);
        proof {
            assert(line =~= validation_lines(file@, workflows as nat, sources as nat, diags@)[0]);
            assert(text::views(lines@) =~= validation_lines(file@, workflows as nat, sources as nat, diags@));
        }
        return (lines, false);
    }
    let mut had_error = false;
    let mut i: usize = 0;
    while i < diags.len()
        invariant
            i <= diags.len(),
            diags@.len() > 0,
            text::views(lines@) == validation_lines(file@, workflows as nat, sources as nat, diags@).take(i as int),
            had_error == exists|j: int| 0 <= j < i && diags@[j].severity == Severity::Error,
        decreases diags.len() - i,
    {
        let is_error = diags[i].severity == Severity::Error;
        let mut m = if is_error { "error: ".to_owned() } else { "warning: ".to_owned() };
        m.append(diags[i].message.as_str());
        let ghost before = lines@;
        lines.push(m);
        proof {
            assert(text::views(lines@) =~= text::views(before).push(m@));
            assert(validation_lines(file@, workflows as nat, sources as nat, diags@).take(i + 1)
                =~= validation_lines(file@, workflows as nat, sources as nat, diags@).take(i as int).push(m@));
        }
        if is_error {
            had_error = true;
        }
        i = i + 1;
    }
    proof {
        assert(validation_lines(file@, workflows as nat, sources as nat, diags@).take(diags@.len() as int)
            =~= validation_lines(file@, workflows as nat, sources as nat, diags@));
    }
    (lines, had_error)
}

} // verus!
